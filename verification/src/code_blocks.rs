//! The fenced-block grammar and the built-in block kinds.
//!
//! A fence's info string names its kind and carries comma-separated
//! `key=value` options: `name, key=value, key=value`. Three kinds are
//! built in: `url-preview` (a link-preview card backed by the cache),
//! `callout` (a note box whose kind comes from the `kind` option) and
//! `quote` (a quotation whose author, avatar and bio stand in
//! `key: value` header lines of the block body).

use vstd::prelude::*;

use crate::data::{PreviewV, UrlPreviewInfo};
use crate::text::{chars_to_string, has_prefix, push_str_chars, string_to_chars, trim_chars,
    trim_spec};

verus! {

/// The built-in block names.
pub open spec fn spec_url_preview_name() -> Seq<char> {
    "url-preview"@
}

pub open spec fn spec_callout_name() -> Seq<char> {
    "callout"@
}

pub open spec fn spec_quote_name() -> Seq<char> {
    "quote"@
}

/// An error that aborts a render: malformed built-in block syntax, or
/// an invalid highlighting configuration.
#[derive(Debug)]
pub enum RenderError {
    /// Malformed built-in block syntax; carries the block kind.
    Parse(String),
    /// Invalid configuration; carries the offending theme name.
    Config(String),
}

/// The mathematical value of a render error.
pub enum RenderErrorV {
    Parse(Seq<char>),
    Config(Seq<char>),
}

impl View for RenderError {
    type V = RenderErrorV;

    open spec fn view(&self) -> RenderErrorV {
        match self {
            RenderError::Parse(w) => RenderErrorV::Parse(w@),
            RenderError::Config(t) => RenderErrorV::Config(t@),
        }
    }
}

impl RenderError {
    /// A plain-text description of the error.
    pub fn message(&self) -> (r: String)
        ensures
            self matches RenderError::Parse(_) <==> has_prefix(r@, "malformed block: "@),
    {
        let mut out: Vec<char> = Vec::new();
        match self {
            RenderError::Parse(which) => {
                push_str_chars(&mut out, "malformed block: ");
                push_str_chars(&mut out, which.as_str());
            },
            RenderError::Config(theme) => {
                push_str_chars(&mut out, "unknown highlight theme: ");
                push_str_chars(&mut out, theme.as_str());
            },
        }
        proof {
            reveal_strlit("malformed block: ");
            reveal_strlit("unknown highlight theme: ");
            assert(out@.len() >= "malformed block: "@.len());
            if self is Parse {
                assert(out@.take("malformed block: "@.len() as int) =~= "malformed block: "@);
            } else {
                if has_prefix(out@, "malformed block: "@) {
                    assert(out@.take("malformed block: "@.len() as int)[0] == 'u');
                }
            }
        }
        chars_to_string(&out)
    }
}

// ---------------------------------------------------------------------
// The fence info string.
// ---------------------------------------------------------------------
/// The mathematical value of a parsed fence.
pub struct FencedV {
    pub name: Seq<char>,
    pub options: Seq<(Seq<char>, Seq<char>)>,
}

/// A parsed fence info string: the block name and its options.
pub struct Fenced {
    pub name: String,
    pub options: Vec<(String, String)>,
}

impl View for Fenced {
    type V = FencedV;

    open spec fn view(&self) -> FencedV {
        FencedV {
            name: self.name@,
            options: self.options@.map_values(|e: (String, String)| (e.0@, e.1@)),
        }
    }
}

/// Split at the first occurrence of `sep`: the part before it, and the
/// part after it if it occurs.
pub open spec fn split_first(s: Seq<char>, sep: char) -> (Seq<char>, Option<Seq<char>>)
    decreases s.len(),
{
    if s.len() == 0 {
        (Seq::empty(), None)
    } else if s[0] == sep {
        (Seq::empty(), Some(s.skip(1)))
    } else {
        let (h, r) = split_first(s.skip(1), sep);
        (seq![s[0]] + h, r)
    }
}

pub proof fn lemma_split_first_len(s: Seq<char>, sep: char)
    ensures
        split_first(s, sep).1 matches Some(r) ==> r.len() < s.len(),
    decreases s.len(),
{
    if s.len() == 0 {
    } else if s[0] == sep {
    } else {
        lemma_split_first_len(s.skip(1), sep);
    }
}

/// One option token: `key=value`, both trimmed; a token without `=` is
/// a key with an empty value.
pub open spec fn opt_of(tok: Seq<char>) -> (Seq<char>, Seq<char>) {
    let (k, v) = split_first(tok, '=');
    match v {
        Some(v) => (trim_spec(k), trim_spec(v)),
        None => (trim_spec(k), Seq::empty()),
    }
}

/// The comma-separated options after the block name.
pub open spec fn opts_of(s: Seq<char>) -> Seq<(Seq<char>, Seq<char>)>
    decreases s.len() via opts_of_dec
{
    let (tok, rest) = split_first(s, ',');
    match rest {
        Some(rest) => seq![opt_of(tok)] + opts_of(rest),
        None => seq![opt_of(tok)],
    }
}

#[via_fn]
proof fn opts_of_dec(s: Seq<char>) {
    lemma_split_first_len(s, ',');
}

/// The parsed form of a fence info string.
pub open spec fn fenced_of(info: Seq<char>) -> FencedV {
    let (head, rest) = split_first(info, ',');
    FencedV {
        name: trim_spec(head),
        options: match rest {
            Some(rest) => opts_of(rest),
            None => Seq::empty(),
        },
    }
}

/// Split an owned character vector at the first `sep`.
fn split_first_exec(v: Vec<char>, sep: char) -> (r: (Vec<char>, Option<Vec<char>>))
    ensures
        ({
            let (h, t) = split_first(v@, sep);
            &&& r.0@ == h
            &&& match r.1 {
                Some(rv) => t == Some(rv@),
                None => t is None,
            }
        }),
    decreases v.len(),
{
    if v.len() == 0 {
        return (v, None);
    }
    let c = v[0];
    if c == sep {
        let mut v2 = v;
        let ghost before = v2@;
        v2.remove(0);
        proof {
            assert(v2@ =~= before.skip(1));
        }
        let h: Vec<char> = Vec::new();
        proof {
            assert(h@ =~= Seq::<char>::empty());
        }
        return (h, Some(v2));
    }
    let mut v2 = v;
    let ghost before = v2@;
    v2.remove(0);
    proof {
        assert(v2@ =~= before.skip(1));
    }
    let (h, r) = split_first_exec(v2, sep);
    let mut h2 = h;
    h2.insert(0, c);
    proof {
        assert(h2@ =~= seq![c] + h2@.skip(1));
    }
    (h2, r)
}

/// Parse one option token.
fn opt_exec(tok: Vec<char>) -> (r: (String, String))
    ensures
        (r.0@, r.1@) == opt_of(tok@),
{
    let (k, v) = split_first_exec(tok, '=');
    let key = chars_to_string(&trim_chars(k));
    match v {
        Some(v) => {
            let val = chars_to_string(&trim_chars(v));
            (key, val)
        },
        None => (key, String::new()),
    }
}

/// Parse the option list.
fn opts_exec(s: Vec<char>) -> (r: Vec<(String, String)>)
    ensures
        r@.map_values(|e: (String, String)| (e.0@, e.1@)) == opts_of(s@),
    decreases s.len(),
{
    let ghost sv = s@;
    proof {
        lemma_split_first_len(sv, ',');
    }
    let (tok, rest) = split_first_exec(s, ',');
    let first = opt_exec(tok);
    let ghost first_v = (first.0@, first.1@);
    match rest {
        Some(rest) => {
            let tail = opts_exec(rest);
            let mut out = tail;
            out.insert(0, first);
            proof {
                assert(out@.map_values(|e: (String, String)| (e.0@, e.1@)) =~= seq![first_v]
                    + out@.skip(1).map_values(|e: (String, String)| (e.0@, e.1@)));
                assert(out@.skip(1) =~= out@.subrange(1, out@.len() as int));
            }
            out
        },
        None => {
            let mut out: Vec<(String, String)> = Vec::new();
            out.push(first);
            proof {
                assert(out@.map_values(|e: (String, String)| (e.0@, e.1@)) =~= seq![first_v]);
            }
            out
        },
    }
}

impl Fenced {
    /// Parse a fence info string. Every info string parses: the name is
    /// the trimmed text before the first comma, the options follow.
    pub fn parse(info: &str) -> (r: Fenced)
        ensures
            r@ == fenced_of(info@),
    {
        let v = string_to_chars(info);
        let (head, rest) = split_first_exec(v, ',');
        let name = chars_to_string(&trim_chars(head));
        let options = match rest {
            Some(rest) => opts_exec(rest),
            None => Vec::new(),
        };
        let r = Fenced { name, options };
        proof {
            assert(r@.options =~= fenced_of(info@).options);
        }
        r
    }

    /// Whether this fence names a built-in block kind.
    pub fn is_builtin_code_block(&self) -> (r: bool)
        ensures
            r == (self@.name == spec_url_preview_name() || self@.name == spec_callout_name()
                || self@.name == spec_quote_name()),
    {
        crate::text::str_eq(self.name.as_str(), "url-preview") || crate::text::str_eq(
            self.name.as_str(),
            "callout",
        ) || crate::text::str_eq(self.name.as_str(), "quote")
    }
}

/// The first value bound to `key` among the options.
pub open spec fn opt_lookup(options: Seq<(Seq<char>, Seq<char>)>, key: Seq<char>) -> Option<
    Seq<char>,
>
    decreases options.len(),
{
    if options.len() == 0 {
        None
    } else if options[0].0 == key {
        Some(options[0].1)
    } else {
        opt_lookup(options.skip(1), key)
    }
}

/// Look up an option value.
fn opt_lookup_exec(options: &Vec<(String, String)>, key: &str) -> (r: Option<String>)
    ensures
        ({
            let view = options@.map_values(|e: (String, String)| (e.0@, e.1@));
            match r {
                Some(v) => opt_lookup(view, key@) == Some(v@),
                None => opt_lookup(view, key@) is None,
            }
        }),
{
    let ghost view = options@.map_values(|e: (String, String)| (e.0@, e.1@));
    let n = options.len();
    let mut i: usize = 0;
    proof {
        assert(view.skip(0) =~= view);
    }
    loop
        invariant
            i <= n,
            n == options.len(),
            view == options@.map_values(|e: (String, String)| (e.0@, e.1@)),
            view.len() == n,
            opt_lookup(view, key@) == opt_lookup(view.skip(i as int), key@),
        decreases n - i,
    {
        if i == n {
            return None;
        }
        let e = &options[i];
        proof {
            assert(view.skip(i as int)[0] == view[i as int]);
            assert(view[i as int].0 == e.0@);
            assert(view.skip(i as int).skip(1) =~= view.skip(i + 1));
        }
        if crate::text::str_eq(e.0.as_str(), key) {
            return Some(e.1.clone());
        }
        i = i + 1;
    }
}

// ---------------------------------------------------------------------
// Callout blocks.
// ---------------------------------------------------------------------
/// Whether the options of a callout are well-formed: every key is
/// `kind`.
pub open spec fn callout_opts_ok(options: Seq<(Seq<char>, Seq<char>)>) -> bool {
    forall|i: int| 0 <= i < options.len() ==> options[i].0 == "kind"@
}

/// The callout kind chosen by the options: the first `kind` value, or
/// `note`.
pub open spec fn callout_kind_of(options: Seq<(Seq<char>, Seq<char>)>) -> Seq<char> {
    match opt_lookup(options, "kind"@) {
        Some(k) => k,
        None => "note"@,
    }
}

/// A callout: a note box of some kind around a body.
pub struct CalloutBlock {
    pub kind: String,
    pub body: String,
}

impl CalloutBlock {
    /// Parse a callout from its fence options and body. An option other
    /// than `kind` is malformed syntax, a hard error.
    pub fn new(options: &Vec<(String, String)>, block: &str) -> (r: Result<
        CalloutBlock,
        RenderError,
    >)
        ensures
            ({
                let view = options@.map_values(|e: (String, String)| (e.0@, e.1@));
                match r {
                    Ok(c) => callout_opts_ok(view) && c.kind@ == callout_kind_of(view) && c.body@
                        == block@,
                    Err(e) => !callout_opts_ok(view) && e@ == RenderErrorV::Parse("callout"@),
                }
            }),
    {
        let ghost view = options@.map_values(|e: (String, String)| (e.0@, e.1@));
        let n = options.len();
        let mut i: usize = 0;
        while i < n
            invariant
                i <= n,
                n == options.len(),
                view == options@.map_values(|e: (String, String)| (e.0@, e.1@)),
                view.len() == n,
                forall|j: int| 0 <= j < i ==> view[j].0 == "kind"@,
            decreases n - i,
        {
            let e = &options[i];
            proof {
                assert(view[i as int].0 == e.0@);
            }
            if !crate::text::str_eq(e.0.as_str(), "kind") {
                return Err(RenderError::Parse(String::from_str("callout")));
            }
            i = i + 1;
        }
        let kind = match opt_lookup_exec(options, "kind") {
            Some(k) => k,
            None => String::from_str("note"),
        };
        Ok(CalloutBlock { kind, body: block.to_owned() })
    }
}

// ---------------------------------------------------------------------
// Quote blocks.
// ---------------------------------------------------------------------
/// The mathematical value of a parsed quote.
pub struct QuoteV {
    pub avatar: Seq<char>,
    pub author: Seq<char>,
    pub bio: Seq<char>,
    pub content: Seq<char>,
}

/// A quotation with its author, avatar and bio.
pub struct QuoteBlock {
    pub avatar: String,
    pub author: String,
    pub bio: String,
    pub content: String,
}

impl View for QuoteBlock {
    type V = QuoteV;

    open spec fn view(&self) -> QuoteV {
        QuoteV {
            avatar: self.avatar@,
            author: self.author@,
            bio: self.bio@,
            content: self.content@,
        }
    }
}

/// Split at the first newline: the line, and what follows it.
pub open spec fn line_split(s: Seq<char>) -> (Seq<char>, Seq<char>)
    decreases s.len(),
{
    if s.len() == 0 {
        (Seq::empty(), Seq::empty())
    } else if s[0] == '\n' {
        (Seq::empty(), s.skip(1))
    } else {
        let (l, r) = line_split(s.skip(1));
        (seq![s[0]] + l, r)
    }
}

pub proof fn lemma_line_split_len(s: Seq<char>)
    ensures
        s.len() > 0 ==> line_split(s).1.len() < s.len(),
    decreases s.len(),
{
    if s.len() == 0 {
    } else if s[0] == '\n' {
    } else {
        lemma_line_split_len(s.skip(1));
        assert(line_split(s).1 == line_split(s.skip(1)).1);
        if s.skip(1).len() == 0 {
            assert(line_split(s.skip(1)).1.len() == 0);
        }
    }
}

/// The parsed form of a quote body: leading `author: `, `bio: ` and
/// `avatar: ` header lines bind those fields (the first occurrence
/// wins), and everything from the first other line on is the content,
/// trimmed.
pub open spec fn quote_of(s: Seq<char>) -> QuoteV
    decreases s.len() via quote_of_dec
{
    if s.len() == 0 {
        QuoteV {
            avatar: Seq::empty(),
            author: Seq::empty(),
            bio: Seq::empty(),
            content: Seq::empty(),
        }
    } else {
        let (line, rest) = line_split(s);
        if has_prefix(line, "author: "@) {
            let q = quote_of(rest);
            QuoteV { author: trim_spec(line.skip(8)), ..q }
        } else if has_prefix(line, "bio: "@) {
            let q = quote_of(rest);
            QuoteV { bio: trim_spec(line.skip(5)), ..q }
        } else if has_prefix(line, "avatar: "@) {
            let q = quote_of(rest);
            QuoteV { avatar: trim_spec(line.skip(8)), ..q }
        } else {
            QuoteV {
                avatar: Seq::empty(),
                author: Seq::empty(),
                bio: Seq::empty(),
                content: trim_spec(s),
            }
        }
    }
}

#[via_fn]
proof fn quote_of_dec(s: Seq<char>) {
    lemma_line_split_len(s);
}

/// Split an owned character vector at the first newline.
fn line_split_exec(v: Vec<char>) -> (r: (Vec<char>, Vec<char>))
    ensures
        (r.0@, r.1@) == line_split(v@),
    decreases v.len(),
{
    if v.len() == 0 {
        let empty: Vec<char> = Vec::new();
        proof {
            assert(empty@ =~= Seq::<char>::empty());
        }
        return (v, empty);
    }
    let c = v[0];
    let mut v2 = v;
    let ghost before = v2@;
    v2.remove(0);
    proof {
        assert(v2@ =~= before.skip(1));
    }
    if c == '\n' {
        let empty: Vec<char> = Vec::new();
        proof {
            assert(empty@ =~= Seq::<char>::empty());
        }
        return (empty, v2);
    }
    let (l, r) = line_split_exec(v2);
    let mut l2 = l;
    l2.insert(0, c);
    proof {
        assert(l2@ =~= seq![c] + l2@.skip(1));
    }
    (l2, r)
}

/// Parse a quote body recursively.
fn quote_parse_rec(v: Vec<char>) -> (r: QuoteBlock)
    ensures
        r@ == quote_of(v@),
    decreases v.len(),
{
    if v.len() == 0 {
        return QuoteBlock {
            avatar: String::new(),
            author: String::new(),
            bio: String::new(),
            content: String::new(),
        };
    }
    let ghost sv = v@;
    proof {
        lemma_line_split_len(sv);
    }
    let whole = v.clone();
    let (line, rest) = line_split_exec(v);
    let author_p = string_to_chars("author: ");
    let bio_p = string_to_chars("bio: ");
    let avatar_p = string_to_chars("avatar: ");
    if crate::text::starts_with_chars(&line, &author_p) {
        proof {
            reveal_strlit("author: ");
        }
        let mut l2 = line;
        let value = l2.split_off(8);
        let q = quote_parse_rec(rest);
        proof {
            assert(value@ =~= line_split(sv).0.skip(8));
        }
        return QuoteBlock {
            author: chars_to_string(&trim_chars(value)),
            avatar: q.avatar,
            bio: q.bio,
            content: q.content,
        };
    }
    if crate::text::starts_with_chars(&line, &bio_p) {
        proof {
            reveal_strlit("bio: ");
        }
        let mut l2 = line;
        let value = l2.split_off(5);
        let q = quote_parse_rec(rest);
        proof {
            assert(value@ =~= line_split(sv).0.skip(5));
        }
        return QuoteBlock {
            bio: chars_to_string(&trim_chars(value)),
            avatar: q.avatar,
            author: q.author,
            content: q.content,
        };
    }
    if crate::text::starts_with_chars(&line, &avatar_p) {
        proof {
            reveal_strlit("avatar: ");
        }
        let mut l2 = line;
        let value = l2.split_off(8);
        let q = quote_parse_rec(rest);
        proof {
            assert(value@ =~= line_split(sv).0.skip(8));
        }
        return QuoteBlock {
            avatar: chars_to_string(&trim_chars(value)),
            author: q.author,
            bio: q.bio,
            content: q.content,
        };
    }
    QuoteBlock {
        avatar: String::new(),
        author: String::new(),
        bio: String::new(),
        content: chars_to_string(&trim_chars(whole)),
    }
}

impl QuoteBlock {
    /// Parse a quote block. A quote whose content is empty after
    /// trimming is malformed syntax, a hard error.
    pub fn parse(block: &str) -> (r: Result<QuoteBlock, RenderError>)
        ensures
            match r {
                Ok(q) => q@ == quote_of(block@) && quote_of(block@).content.len() > 0,
                Err(e) => quote_of(block@).content.len() == 0 && e@ == RenderErrorV::Parse(
                    "quote"@,
                ),
            },
    {
        let v = string_to_chars(block);
        let q = quote_parse_rec(v);
        if q.content.as_str().unicode_len() == 0 {
            return Err(RenderError::Parse(String::from_str("quote")));
        }
        Ok(q)
    }
}

// ---------------------------------------------------------------------
// URL-preview markup.
// ---------------------------------------------------------------------
/// The card rendered for a recorded preview.
pub open spec fn preview_card_spec(url: Seq<char>, p: PreviewV) -> Seq<char> {
    "<div class=\"url-preview\"><a href=\""@ + url + "\"><strong>"@ + p.title + "</strong><em>"@
        + p.description + "</em></a>"@ + (match p.image {
        Some(img) => "<img src=\""@ + img + "\" loading=\"lazy\">"@,
        None => Seq::<char>::empty(),
    }) + "</div>"@
}

/// The placeholder rendered while a preview fetch is pending.
pub open spec fn preview_pending_spec(url: Seq<char>) -> Seq<char> {
    "<div class=\"url-preview url-preview-pending\" data-url=\""@ + url + "\"></div>"@
}

/// Render the card for a recorded preview.
pub fn preview_card(url: &str, p: &UrlPreviewInfo) -> (r: String)
    ensures
        r@ == preview_card_spec(url@, p@),
{
    let mut out: Vec<char> = Vec::new();
    push_str_chars(&mut out, "<div class=\"url-preview\"><a href=\"");
    push_str_chars(&mut out, url);
    push_str_chars(&mut out, "\"><strong>");
    push_str_chars(&mut out, p.title.as_str());
    push_str_chars(&mut out, "</strong><em>");
    push_str_chars(&mut out, p.description.as_str());
    push_str_chars(&mut out, "</em></a>");
    match &p.image {
        Some(img) => {
            push_str_chars(&mut out, "<img src=\"");
            push_str_chars(&mut out, img.as_str());
            push_str_chars(&mut out, "\" loading=\"lazy\">");
        },
        None => {},
    }
    push_str_chars(&mut out, "</div>");
    proof {
        assert(out@ =~= preview_card_spec(url@, p@));
    }
    chars_to_string(&out)
}

/// Render the placeholder for a pending preview.
pub fn preview_pending(url: &str) -> (r: String)
    ensures
        r@ == preview_pending_spec(url@),
{
    let mut out: Vec<char> = Vec::new();
    push_str_chars(&mut out, "<div class=\"url-preview url-preview-pending\" data-url=\"");
    push_str_chars(&mut out, url);
    push_str_chars(&mut out, "\"></div>");
    proof {
        assert(out@ =~= preview_pending_spec(url@));
    }
    chars_to_string(&out)
}

/// The lazily-loading image element emitted for a Markdown image.
pub open spec fn image_html_spec(dest: Seq<char>, alt: Seq<char>, title: Seq<char>) -> Seq<
    char,
> {
    "<img src=\""@ + dest + "\" alt=\""@ + alt + "\" title=\""@ + title
        + "\" loading=\"lazy\">"@
}

/// Render the image element.
pub fn image_html(dest: &str, alt: &str, title: &str) -> (r: String)
    ensures
        r@ == image_html_spec(dest@, alt@, title@),
{
    let mut out: Vec<char> = Vec::new();
    push_str_chars(&mut out, "<img src=\"");
    push_str_chars(&mut out, dest);
    push_str_chars(&mut out, "\" alt=\"");
    push_str_chars(&mut out, alt);
    push_str_chars(&mut out, "\" title=\"");
    push_str_chars(&mut out, title);
    push_str_chars(&mut out, "\" loading=\"lazy\">");
    proof {
        assert(out@ =~= image_html_spec(dest@, alt@, title@));
    }
    chars_to_string(&out)
}

/// The plain preformatted block emitted when highlighting is off.
pub open spec fn pre_block_spec(text: Seq<char>) -> Seq<char> {
    "<pre>"@ + text + "</pre>"@
}

/// Render the plain preformatted block.
pub fn pre_block(text: &str) -> (r: String)
    ensures
        r@ == pre_block_spec(text@),
{
    let mut out: Vec<char> = Vec::new();
    push_str_chars(&mut out, "<pre>");
    push_str_chars(&mut out, text);
    push_str_chars(&mut out, "</pre>");
    proof {
        assert(out@ =~= pre_block_spec(text@));
    }
    chars_to_string(&out)
}

} // verus!
