//! Template rendering for headings, quotes and callouts. The engine is
//! minijinja; each template is a fixed literal whose substitution
//! semantics the wrappers' contracts state exactly.

use vstd::prelude::*;

use crate::code_blocks::QuoteBlock;

verus! {

/// The decimal digit character for a value in `0..10`.
pub open spec fn digit_of(n: int) -> char {
    ((48 + n) as u8) as char
}

/// The rendered heading: `<hN id="ID">INNER</hN>`.
pub open spec fn heading_html_spec(inner: Seq<char>, level: int, id: Seq<char>) -> Seq<char> {
    "<h"@ + seq![digit_of(level)] + " id=\""@ + id + "\">"@ + inner + "</h"@ + seq![
        digit_of(level),
    ] + ">"@
}

/// The rendered quote block.
pub open spec fn quote_html_spec(
    avatar: Seq<char>,
    author: Seq<char>,
    bio: Seq<char>,
    content: Seq<char>,
) -> Seq<char> {
    "<blockquote class=\"quote\"><p>"@ + content + "</p><footer><img src=\""@ + avatar
        + "\" alt=\"avatar\"><cite>"@ + author + "</cite><span>"@ + bio
        + "</span></footer></blockquote>"@
}

/// The rendered callout block.
pub open spec fn callout_html_spec(kind: Seq<char>, body: Seq<char>) -> Seq<char> {
    "<div class=\"callout callout-"@ + kind + "\">"@ + body + "</div>"@
}

/// Relies on minijinja (`Environment::add_template`,
/// `Template::render`): rendering the fixed heading template
/// substitutes the level digit, the id and the inner HTML, with
/// auto-escaping off for a template name without an HTML extension.
#[verifier::external_body]
pub fn render_heading_template(inner: &str, level: u8, id: &str) -> (r: String)
    requires
        1 <= level <= 6,
    ensures
        r@ == heading_html_spec(inner@, level as int, id@),
{
    let mut env = minijinja::Environment::new();
    env.add_template("heading", "<h{{ level }} id=\"{{ id }}\">{{ heading }}</h{{ level }}>")
        .unwrap();
    let mut ctx = std::collections::BTreeMap::new();
    ctx.insert("heading", inner.to_string());
    ctx.insert("level", level.to_string());
    ctx.insert("id", id.to_string());
    env.get_template("heading").unwrap().render(&ctx).unwrap_or_default()
}

/// Relies on minijinja, as for the heading template: the fixed quote
/// template substitutes the four fields.
#[verifier::external_body]
pub fn render_quote_template(quote: &QuoteBlock) -> (r: String)
    ensures
        r@ == quote_html_spec(quote.avatar@, quote.author@, quote.bio@, quote.content@),
{
    let mut env = minijinja::Environment::new();
    env.add_template(
        "quote",
        "<blockquote class=\"quote\"><p>{{ content }}</p><footer><img src=\"{{ avatar }}\" alt=\"avatar\"><cite>{{ author }}</cite><span>{{ bio }}</span></footer></blockquote>",
    ).unwrap();
    let mut ctx = std::collections::BTreeMap::new();
    ctx.insert("avatar", quote.avatar.clone());
    ctx.insert("author", quote.author.clone());
    ctx.insert("bio", quote.bio.clone());
    ctx.insert("content", quote.content.clone());
    env.get_template("quote").unwrap().render(&ctx).unwrap_or_default()
}

/// Relies on minijinja, as for the heading template: the fixed callout
/// template substitutes the kind and the body.
#[verifier::external_body]
pub fn render_callout_template(kind: &str, body: &str) -> (r: String)
    ensures
        r@ == callout_html_spec(kind@, body@),
{
    let mut env = minijinja::Environment::new();
    env.add_template("callout", "<div class=\"callout callout-{{ kind }}\">{{ body }}</div>")
        .unwrap();
    let mut ctx = std::collections::BTreeMap::new();
    ctx.insert("kind", kind.to_string());
    ctx.insert("body", body.to_string());
    env.get_template("callout").unwrap().render(&ctx).unwrap_or_default()
}

} // verus!
