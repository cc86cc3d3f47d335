//! Syntax highlighting through syntect, behind one trusted wrapper.

use vstd::prelude::*;

verus! {

/// What syntect's HTML highlighting returns for a language hint, a
/// theme name and a code text: a function of the three alone.
pub uninterp spec fn highlighted_of(lang: Seq<char>, theme: Seq<char>, text: Seq<char>) -> Seq<
    char,
>;

/// Whether syntect's HTML highlighting succeeds for those inputs:
/// also a function of the three alone, since the syntax and theme sets
/// are fixed embedded assets.
pub uninterp spec fn highlight_ok_of(lang: Seq<char>, theme: Seq<char>, text: Seq<char>) -> bool;

/// Relies on syntect (`SyntaxSet::load_defaults_newlines`,
/// `ThemeSet::load_defaults`, `find_syntax_by_token`,
/// `highlighted_html_for_string`): with the bundled syntaxes and themes
/// both the outcome and the result depend on the three inputs alone; an
/// unknown language falls back to plain text inside the call. `None` is
/// an unknown theme name or a highlighting failure.
#[verifier::external_body]
pub fn highlight_syntax(lang: &str, theme: &str, text: &str) -> (r: Option<String>)
    ensures
        r is Some <==> highlight_ok_of(lang@, theme@, text@),
        r matches Some(h) ==> h@ == highlighted_of(lang@, theme@, text@),
{
    let ss = syntect::parsing::SyntaxSet::load_defaults_newlines();
    let ts = syntect::highlighting::ThemeSet::load_defaults();
    let th = match ts.themes.get(theme) {
        Some(t) => t,
        None => {
            return None;
        },
    };
    let syntax = match ss.find_syntax_by_token(lang) {
        Some(s) => s,
        None => ss.find_syntax_plain_text(),
    };
    syntect::html::highlighted_html_for_string(text, &ss, syntax, th).ok()
}

} // verus!
