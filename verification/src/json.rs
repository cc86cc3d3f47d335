//! The persisted cache file format: a JSON object with one key,
//! `urlPreviews`, mapping each URL to a compact positional array
//! `[title, description, image-or-empty-string]`, written sorted by URL.
//! The writer and the reader are both verified against the same
//! specification; the reader additionally tolerates surrounding
//! whitespace, missing trailing array elements, and repeated keys (the
//! last occurrence wins).

use vstd::prelude::*;

use crate::data::{assoc_find, assoc_update, lemma_assoc_find_none, sorted_insert,
    strict_sorted, PreviewV, UrlPreviewInfo};
use crate::text::{chars_to_string, string_to_chars};

verus! {

// ---------------------------------------------------------------------
// The written form.
// ---------------------------------------------------------------------
/// The lower-case hex digit for a value in `0..16`.
pub open spec fn hex_digit(n: int) -> char {
    if n < 10 {
        ((48 + n) as u8) as char
    } else {
        ((87 + n) as u8) as char
    }
}

/// The escaped form of one character inside a JSON string literal.
pub open spec fn escape_char(c: char) -> Seq<char> {
    if c == '"' {
        seq!['\\', '"']
    } else if c == '\\' {
        seq!['\\', '\\']
    } else if c == '\n' {
        seq!['\\', 'n']
    } else if c == '\r' {
        seq!['\\', 'r']
    } else if c == '\t' {
        seq!['\\', 't']
    } else if (c as u32) < 32 {
        seq!['\\', 'u', '0', '0', hex_digit((c as u32) as int / 16), hex_digit(
            (c as u32) as int % 16,
        )]
    } else {
        seq![c]
    }
}

/// The escaped form of a whole string body.
pub open spec fn escape_str(s: Seq<char>) -> Seq<char>
    decreases s.len(),
{
    if s.len() == 0 {
        Seq::empty()
    } else {
        escape_str(s.drop_last()) + escape_char(s.last())
    }
}

/// A quoted JSON string literal.
pub open spec fn quote_json(s: Seq<char>) -> Seq<char> {
    seq!['"'] + escape_str(s) + seq!['"']
}

/// The positional array for one preview record: title, description, and
/// the image or the empty string.
pub open spec fn record_json(p: PreviewV) -> Seq<char> {
    seq!['['] + quote_json(p.title) + seq![','] + quote_json(p.description) + seq![',']
        + quote_json(match p.image {
        Some(i) => i,
        None => Seq::empty(),
    }) + seq![']']
}

/// One `"url": [...]` entry.
pub open spec fn entry_json(e: (Seq<char>, PreviewV)) -> Seq<char> {
    quote_json(e.0) + seq![':'] + record_json(e.1)
}

/// The comma-separated entries.
pub open spec fn entries_json(s: Seq<(Seq<char>, PreviewV)>) -> Seq<char>
    decreases s.len(),
{
    if s.len() == 0 {
        Seq::empty()
    } else if s.len() == 1 {
        entry_json(s[0])
    } else {
        entries_json(s.drop_last()) + seq![','] + entry_json(s.last())
    }
}

/// The whole persisted file.
pub open spec fn export_json_spec(previews: Seq<(Seq<char>, PreviewV)>) -> Seq<char> {
    seq!['{'] + quote_json("urlPreviews"@) + seq![':'] + seq!['{'] + entries_json(previews)
        + seq!['}'] + seq!['}']
}

// ---------------------------------------------------------------------
// The writer.
// ---------------------------------------------------------------------
/// Append the escaped form of one character.
fn push_escaped_char(out: &mut Vec<char>, c: char)
    ensures
        final(out)@ == old(out)@ + escape_char(c),
{
    if c == '"' {
        out.push('\\');
        out.push('"');
    } else if c == '\\' {
        out.push('\\');
        out.push('\\');
    } else if c == '\n' {
        out.push('\\');
        out.push('n');
    } else if c == '\r' {
        out.push('\\');
        out.push('r');
    } else if c == '\t' {
        out.push('\\');
        out.push('t');
    } else if (c as u32) < 32 {
        let v = c as u32;
        out.push('\\');
        out.push('u');
        out.push('0');
        out.push('0');
        out.push(hex_digit_exec((v / 16) as u8));
        out.push(hex_digit_exec((v % 16) as u8));
    } else {
        out.push(c);
    }
    proof {
        assert(out@ =~= old(out)@ + escape_char(c));
    }
}

/// The lower-case hex digit character.
fn hex_digit_exec(n: u8) -> (r: char)
    requires
        n < 16,
    ensures
        r == hex_digit(n as int),
{
    if n < 10 {
        (48 + n) as char
    } else {
        (87 + n) as char
    }
}

/// Append a quoted, escaped JSON string literal.
fn push_quoted(out: &mut Vec<char>, s: &Vec<char>)
    ensures
        final(out)@ == old(out)@ + quote_json(s@),
{
    out.push('"');
    let n = s.len();
    let mut i: usize = 0;
    proof {
        assert(escape_str(s@.take(0)) =~= Seq::<char>::empty());
        assert(out@ =~= old(out)@ + seq!['"'] + escape_str(s@.take(0)));
    }
    while i < n
        invariant
            i <= n,
            n == s.len(),
            out@ == old(out)@ + seq!['"'] + escape_str(s@.take(i as int)),
        decreases n - i,
    {
        let ghost prev = out@;
        push_escaped_char(out, s[i]);
        proof {
            assert(s@.take(i + 1).drop_last() =~= s@.take(i as int));
            assert(s@.take(i + 1).last() == s@[i as int]);
            assert(out@ =~= old(out)@ + seq!['"'] + escape_str(s@.take(i + 1)));
        }
        i = i + 1;
    }
    out.push('"');
    proof {
        assert(s@.take(n as int) =~= s@);
        assert(out@ =~= old(out)@ + quote_json(s@));
    }
}

/// Append the quoted form of a `String`.
fn push_quoted_str(out: &mut Vec<char>, s: &str)
    ensures
        final(out)@ == old(out)@ + quote_json(s@),
{
    let v = string_to_chars(s);
    push_quoted(out, &v);
}

/// Append the positional array for one record.
fn push_record(out: &mut Vec<char>, p: &UrlPreviewInfo)
    ensures
        final(out)@ == old(out)@ + record_json(p@),
{
    out.push('[');
    push_quoted_str(out, p.title.as_str());
    out.push(',');
    push_quoted_str(out, p.description.as_str());
    out.push(',');
    match &p.image {
        Some(i) => push_quoted_str(out, i.as_str()),
        None => {
            let empty: Vec<char> = Vec::new();
            proof {
                assert(empty@ =~= Seq::<char>::empty());
            }
            push_quoted(out, &empty);
        },
    }
    out.push(']');
    proof {
        assert(out@ =~= old(out)@ + record_json(p@));
    }
}

/// Serialize one preview record to its positional-array form.
pub fn record_to_json(p: &UrlPreviewInfo) -> (r: String)
    ensures
        r@ == record_json(p@),
{
    let mut out: Vec<char> = Vec::new();
    push_record(&mut out, p);
    proof {
        assert(out@ =~= record_json(p@));
    }
    chars_to_string(&out)
}

/// Serialize the sorted previews to the persisted file form.
pub fn previews_to_json(previews: &Vec<(String, UrlPreviewInfo)>) -> (r: String)
    ensures
        r@ == export_json_spec(
            previews@.map_values(|e: (String, UrlPreviewInfo)| (e.0@, e.1@)),
        ),
{
    let ghost view = previews@.map_values(|e: (String, UrlPreviewInfo)| (e.0@, e.1@));
    let mut out: Vec<char> = Vec::new();
    out.push('{');
    push_quoted_str(&mut out, "urlPreviews");
    out.push(':');
    out.push('{');
    let ghost header = out@;
    let n = previews.len();
    let mut i: usize = 0;
    proof {
        assert(entries_json(view.take(0)) =~= Seq::<char>::empty());
        assert(out@ =~= header + entries_json(view.take(0)));
    }
    while i < n
        invariant
            i <= n,
            n == previews.len(),
            view == previews@.map_values(|e: (String, UrlPreviewInfo)| (e.0@, e.1@)),
            view.len() == n,
            out@ == header + entries_json(view.take(i as int)),
        decreases n - i,
    {
        if i > 0 {
            out.push(',');
        }
        let e = &previews[i];
        push_quoted_str(&mut out, e.0.as_str());
        out.push(':');
        push_record(&mut out, &e.1);
        proof {
            assert(view.take(i + 1).drop_last() =~= view.take(i as int));
            assert(view.take(i + 1).last() == view[i as int]);
            assert(view[i as int] == (e.0@, e.1@));
            if i == 0 {
                assert(view.take(1).len() == 1);
                assert(entries_json(view.take(1)) == entry_json(view[0]));
                assert(out@ =~= header + entries_json(view.take(i + 1)));
            } else {
                assert(out@ =~= header + entries_json(view.take(i + 1)));
            }
        }
        i = i + 1;
    }
    out.push('}');
    out.push('}');
    proof {
        assert(view.take(n as int) =~= view);
        assert(out@ =~= export_json_spec(view));
    }
    chars_to_string(&out)
}

// ---------------------------------------------------------------------
// The reader: specification.
// ---------------------------------------------------------------------
/// JSON insignificant whitespace.
pub open spec fn is_ws(c: char) -> bool {
    c == ' ' || c == '\n' || c == '\r' || c == '\t'
}

/// The first index at or after `i` holding a non-whitespace character.
pub open spec fn sp_skip_ws(s: Seq<char>, i: int) -> int
    decreases s.len() - i when 0 <= i <= s.len()
{
    if i < s.len() && is_ws(s[i]) {
        sp_skip_ws(s, i + 1)
    } else {
        i
    }
}

pub proof fn lemma_skip_ws_bounds(s: Seq<char>, i: int)
    requires
        0 <= i <= s.len(),
    ensures
        i <= sp_skip_ws(s, i) <= s.len(),
    decreases s.len() - i,
{
    if i < s.len() && is_ws(s[i]) {
        lemma_skip_ws_bounds(s, i + 1);
    }
}

/// The numeric value of a hex digit, or 16 if the character is none.
pub open spec fn hex_val(c: char) -> int {
    let v = c as u32;
    if 48 <= v < 58 {
        v - 48
    } else if 97 <= v < 103 {
        v - 87
    } else if 65 <= v < 71 {
        v - 55
    } else {
        16
    }
}

/// The character for a simple escape letter, if it is one.
pub open spec fn simple_unescape(c: char) -> Option<char> {
    if c == '"' {
        Some('"')
    } else if c == '\\' {
        Some('\\')
    } else if c == '/' {
        Some('/')
    } else if c == 'n' {
        Some('\n')
    } else if c == 'r' {
        Some('\r')
    } else if c == 't' {
        Some('\t')
    } else if c == 'b' {
        Some((8 as u8) as char)
    } else if c == 'f' {
        Some((12 as u8) as char)
    } else {
        None
    }
}

/// Parse the body of a string literal, starting after the opening
/// quote; yields the unescaped characters and the index after the
/// closing quote. A `\u` escape is accepted for code points below 128.
pub open spec fn sp_string_body(s: Seq<char>, i: int) -> Option<(Seq<char>, int)>
    decreases s.len() - i when 0 <= i <= s.len()
{
    if i >= s.len() {
        None
    } else if s[i] == '"' {
        Some((Seq::empty(), i + 1))
    } else if s[i] == '\\' {
        if i + 1 >= s.len() {
            None
        } else if s[i + 1] == 'u' {
            if i + 6 <= s.len() && hex_val(s[i + 2]) < 16 && hex_val(s[i + 3]) < 16 && hex_val(
                s[i + 4],
            ) < 16 && hex_val(s[i + 5]) < 16 {
                let v = hex_val(s[i + 2]) * 4096 + hex_val(s[i + 3]) * 256 + hex_val(s[i + 4]) * 16
                    + hex_val(s[i + 5]);
                if v < 128 {
                    match sp_string_body(s, i + 6) {
                        Some((t, j)) => Some((seq![(v as u8) as char] + t, j)),
                        None => None,
                    }
                } else {
                    None
                }
            } else {
                None
            }
        } else {
            match simple_unescape(s[i + 1]) {
                Some(c) => match sp_string_body(s, i + 2) {
                    Some((t, j)) => Some((seq![c] + t, j)),
                    None => None,
                },
                None => None,
            }
        }
    } else {
        match sp_string_body(s, i + 1) {
            Some((t, j)) => Some((seq![s[i]] + t, j)),
            None => None,
        }
    }
}

pub proof fn lemma_string_body_bounds(s: Seq<char>, i: int)
    requires
        0 <= i <= s.len(),
        sp_string_body(s, i) is Some,
    ensures
        i < sp_string_body(s, i)->Some_0.1 <= s.len(),
    decreases s.len() - i,
{
    if i >= s.len() {
    } else if s[i] == '"' {
    } else if s[i] == '\\' {
        if s[i + 1] == 'u' {
            lemma_string_body_bounds(s, i + 6);
        } else {
            lemma_string_body_bounds(s, i + 2);
        }
    } else {
        lemma_string_body_bounds(s, i + 1);
    }
}

/// Parse a quoted string literal at `i`.
pub open spec fn sp_string(s: Seq<char>, i: int) -> Option<(Seq<char>, int)> {
    if 0 <= i < s.len() && s[i] == '"' {
        sp_string_body(s, i + 1)
    } else {
        None
    }
}

pub proof fn lemma_sp_string_bounds(s: Seq<char>, i: int)
    requires
        0 <= i <= s.len(),
        sp_string(s, i) is Some,
    ensures
        i + 1 < sp_string(s, i)->Some_0.1 <= s.len(),
{
    lemma_string_body_bounds(s, i + 1);
}

/// A record value with 0 to 3 present elements.
pub open spec fn record_of_fields(fields: Seq<Seq<char>>) -> PreviewV {
    PreviewV {
        title: if fields.len() >= 1 {
            fields[0]
        } else {
            Seq::empty()
        },
        description: if fields.len() >= 2 {
            fields[1]
        } else {
            Seq::empty()
        },
        image: if fields.len() >= 3 && fields[2].len() > 0 {
            Some(fields[2])
        } else {
            None
        },
    }
}

/// Parse the positional record array at `i`: `[` then up to three
/// quoted strings separated by commas, then `]`. Missing trailing
/// elements default to empty; an empty third element means no image.
pub open spec fn sp_record(s: Seq<char>, i: int) -> Option<(PreviewV, int)> {
    if !(0 <= i < s.len() && s[i] == '[') {
        None
    } else {
        let j0 = sp_skip_ws(s, i + 1);
        if j0 < s.len() && s[j0] == ']' {
            Some((record_of_fields(Seq::empty()), j0 + 1))
        } else {
            match sp_string(s, j0) {
                None => None,
                Some((f0, j1)) => {
                    let k1 = sp_skip_ws(s, j1);
                    if k1 < s.len() && s[k1] == ']' {
                        Some((record_of_fields(seq![f0]), k1 + 1))
                    } else if k1 < s.len() && s[k1] == ',' {
                        match sp_string(s, sp_skip_ws(s, k1 + 1)) {
                            None => None,
                            Some((f1, j2)) => {
                                let k2 = sp_skip_ws(s, j2);
                                if k2 < s.len() && s[k2] == ']' {
                                    Some((record_of_fields(seq![f0, f1]), k2 + 1))
                                } else if k2 < s.len() && s[k2] == ',' {
                                    match sp_string(s, sp_skip_ws(s, k2 + 1)) {
                                        None => None,
                                        Some((f2, j3)) => {
                                            let k3 = sp_skip_ws(s, j3);
                                            if k3 < s.len() && s[k3] == ']' {
                                                Some(
                                                    (record_of_fields(seq![f0, f1, f2]), k3 + 1),
                                                )
                                            } else {
                                                None
                                            }
                                        },
                                    }
                                } else {
                                    None
                                }
                            },
                        }
                    } else {
                        None
                    }
                },
            }
        }
    }
}

/// One `"url": [...]` entry at `i`.
pub open spec fn sp_entry(s: Seq<char>, i: int) -> Option<((Seq<char>, PreviewV), int)> {
    match sp_string(s, i) {
        None => None,
        Some((k, j)) => {
            let j2 = sp_skip_ws(s, j);
            if j2 < s.len() && s[j2] == ':' {
                let j3 = sp_skip_ws(s, j2 + 1);
                match sp_record(s, j3) {
                    None => None,
                    Some((p, m)) => Some(((k, p), m)),
                }
            } else {
                None
            }
        },
    }
}

/// The entries of the inner object, starting at the first key; consumes
/// the closing brace of the object.
pub open spec fn sp_entries(s: Seq<char>, i: int) -> Option<(Seq<(Seq<char>, PreviewV)>, int)>
    decreases s.len() - i when 0 <= i <= s.len() via sp_entries_dec
{
    match sp_entry(s, i) {
        None => None,
        Some((kv, j)) => {
            let k = sp_skip_ws(s, j);
            if k < s.len() && s[k] == ',' {
                match sp_entries(s, sp_skip_ws(s, k + 1)) {
                    None => None,
                    Some((rest, m)) => Some((seq![kv] + rest, m)),
                }
            } else if k < s.len() && s[k] == '}' {
                Some((seq![kv], k + 1))
            } else {
                None
            }
        },
    }
}

#[via_fn]
proof fn sp_entries_dec(s: Seq<char>, i: int) {
    if sp_entry(s, i) is Some {
        lemma_sp_entry_bounds(s, i);
        let j = sp_entry(s, i)->Some_0.1;
        lemma_skip_ws_bounds(s, j);
        let k = sp_skip_ws(s, j);
        if k < s.len() && s[k] == ',' {
            lemma_skip_ws_bounds(s, k + 1);
        }
    }
}

/// The whole persisted file: surrounding whitespace, then an object with
/// the single key `urlPreviews` mapping to the entry object.
pub open spec fn sp_file(s: Seq<char>) -> Option<Seq<(Seq<char>, PreviewV)>> {
    let i0 = sp_skip_ws(s, 0);
    if !(i0 < s.len() && s[i0] == '{') {
        None
    } else {
        let i1 = sp_skip_ws(s, i0 + 1);
        match sp_string(s, i1) {
            None => None,
            Some((key, i2)) => if key != "urlPreviews"@ {
                None
            } else {
                let i3 = sp_skip_ws(s, i2);
                if !(i3 < s.len() && s[i3] == ':') {
                    None
                } else {
                    let i4 = sp_skip_ws(s, i3 + 1);
                    if !(i4 < s.len() && s[i4] == '{') {
                        None
                    } else {
                        let i5 = sp_skip_ws(s, i4 + 1);
                        if i5 < s.len() && s[i5] == '}' {
                            let i6 = sp_skip_ws(s, i5 + 1);
                            if i6 < s.len() && s[i6] == '}' {
                                if sp_skip_ws(s, i6 + 1) == s.len() {
                                    Some(Seq::empty())
                                } else {
                                    None
                                }
                            } else {
                                None
                            }
                        } else {
                            match sp_entries(s, i5) {
                                None => None,
                                Some((entries, i6)) => {
                                    let i7 = sp_skip_ws(s, i6);
                                    if i7 < s.len() && s[i7] == '}' {
                                        if sp_skip_ws(s, i7 + 1) == s.len() {
                                            Some(entries)
                                        } else {
                                            None
                                        }
                                    } else {
                                        None
                                    }
                                },
                            }
                        }
                    }
                }
            },
        }
    }
}

/// The previews that a sequence of parsed entries yields: entries are
/// applied in order, and a repeated URL replaces the earlier record.
pub open spec fn fold_entries(entries: Seq<(Seq<char>, PreviewV)>) -> Seq<(Seq<char>, PreviewV)>
    decreases entries.len(),
{
    if entries.len() == 0 {
        Seq::empty()
    } else {
        let prev = fold_entries(entries.drop_last());
        let e = entries.last();
        if assoc_find(prev, e.0) is Some {
            assoc_update(prev, e.0, e.1)
        } else {
            sorted_insert(prev, e.0, e.1)
        }
    }
}

pub proof fn lemma_sp_record_bounds(s: Seq<char>, i: int)
    requires
        0 <= i <= s.len(),
        sp_record(s, i) is Some,
    ensures
        i < sp_record(s, i)->Some_0.1 <= s.len(),
{
    lemma_skip_ws_bounds(s, i + 1);
    let j0 = sp_skip_ws(s, i + 1);
    if j0 < s.len() && s[j0] == ']' {
    } else {
        lemma_sp_string_bounds(s, j0);
        let j1 = sp_string(s, j0)->Some_0.1;
        lemma_skip_ws_bounds(s, j1);
        let k1 = sp_skip_ws(s, j1);
        if k1 < s.len() && s[k1] == ']' {
        } else {
            lemma_skip_ws_bounds(s, k1 + 1);
            lemma_sp_string_bounds(s, sp_skip_ws(s, k1 + 1));
            let j2 = sp_string(s, sp_skip_ws(s, k1 + 1))->Some_0.1;
            lemma_skip_ws_bounds(s, j2);
            let k2 = sp_skip_ws(s, j2);
            if k2 < s.len() && s[k2] == ']' {
            } else {
                lemma_skip_ws_bounds(s, k2 + 1);
                lemma_sp_string_bounds(s, sp_skip_ws(s, k2 + 1));
                let j3 = sp_string(s, sp_skip_ws(s, k2 + 1))->Some_0.1;
                lemma_skip_ws_bounds(s, j3);
            }
        }
    }
}

pub proof fn lemma_sp_entry_bounds(s: Seq<char>, i: int)
    requires
        0 <= i <= s.len(),
        sp_entry(s, i) is Some,
    ensures
        i < sp_entry(s, i)->Some_0.1 <= s.len(),
{
    lemma_sp_string_bounds(s, i);
    let j = sp_string(s, i)->Some_0.1;
    lemma_skip_ws_bounds(s, j);
    let j2 = sp_skip_ws(s, j);
    lemma_skip_ws_bounds(s, j2 + 1);
    lemma_sp_record_bounds(s, sp_skip_ws(s, j2 + 1));
}

// ---------------------------------------------------------------------
// The reader: executable parser, mirroring the specification.
// ---------------------------------------------------------------------
/// The numeric value of a hex digit, or 16.
fn hex_val_exec(c: char) -> (r: u8)
    ensures
        r as int == hex_val(c),
        r <= 16,
{
    let v = c as u32;
    if 48 <= v && v < 58 {
        (v - 48) as u8
    } else if 97 <= v && v < 103 {
        (v - 87) as u8
    } else if 65 <= v && v < 71 {
        (v - 55) as u8
    } else {
        16
    }
}

/// The character for a simple escape letter.
fn simple_unescape_exec(c: char) -> (r: Option<char>)
    ensures
        r == simple_unescape(c),
{
    if c == '"' {
        Some('"')
    } else if c == '\\' {
        Some('\\')
    } else if c == '/' {
        Some('/')
    } else if c == 'n' {
        Some('\n')
    } else if c == 'r' {
        Some('\r')
    } else if c == 't' {
        Some('\t')
    } else if c == 'b' {
        Some((8 as u8) as char)
    } else if c == 'f' {
        Some((12 as u8) as char)
    } else {
        None
    }
}

/// Skip insignificant whitespace.
fn p_skip_ws(v: &Vec<char>, i: usize) -> (j: usize)
    requires
        i <= v.len(),
    ensures
        j as int == sp_skip_ws(v@, i as int),
        i <= j <= v.len(),
    decreases v.len() - i,
{
    if i < v.len() {
        let c = v[i];
        if c == ' ' || c == '\n' || c == '\r' || c == '\t' {
            return p_skip_ws(v, i + 1);
        }
    }
    i
}

/// Parse a string-literal body, after the opening quote.
fn p_string_body(v: &Vec<char>, i: usize) -> (r: Option<(Vec<char>, usize)>)
    requires
        i <= v.len(),
    ensures
        match r {
            Some(p) => sp_string_body(v@, i as int) == Some((p.0@, p.1 as int)) && i < p.1
                <= v.len(),
            None => sp_string_body(v@, i as int) is None,
        },
    decreases v.len() - i,
{
    if i >= v.len() {
        return None;
    }
    let c = v[i];
    if c == '"' {
        let t: Vec<char> = Vec::new();
        proof {
            assert(t@ =~= Seq::<char>::empty());
        }
        return Some((t, i + 1));
    }
    if c == '\\' {
        if i + 1 >= v.len() {
            return None;
        }
        let e = v[i + 1];
        if e == 'u' {
            if v.len() - i >= 6 {
                let h1 = hex_val_exec(v[i + 2]);
                let h2 = hex_val_exec(v[i + 3]);
                let h3 = hex_val_exec(v[i + 4]);
                let h4 = hex_val_exec(v[i + 5]);
                if h1 < 16 && h2 < 16 && h3 < 16 && h4 < 16 {
                    let val: u32 = (h1 as u32) * 4096 + (h2 as u32) * 256 + (h3 as u32) * 16 + (
                    h4 as u32);
                    if val < 128 {
                        match p_string_body(v, i + 6) {
                            Some((t, j)) => {
                                let mut t2 = t;
                                t2.insert(0, (val as u8) as char);
                                proof {
                                    assert(t2@ =~= seq![((val as u8) as char)] + t2@.skip(1));
                                }
                                return Some((t2, j));
                            },
                            None => {
                                return None;
                            },
                        }
                    } else {
                        return None;
                    }
                } else {
                    return None;
                }
            } else {
                return None;
            }
        } else {
            match simple_unescape_exec(e) {
                Some(ch) => {
                    match p_string_body(v, i + 2) {
                        Some((t, j)) => {
                            let mut t2 = t;
                            t2.insert(0, ch);
                            proof {
                                assert(t2@ =~= seq![ch] + t2@.skip(1));
                            }
                            return Some((t2, j));
                        },
                        None => {
                            return None;
                        },
                    }
                },
                None => {
                    return None;
                },
            }
        }
    }
    match p_string_body(v, i + 1) {
        Some((t, j)) => {
            let mut t2 = t;
            t2.insert(0, c);
            proof {
                assert(t2@ =~= seq![c] + t2@.skip(1));
            }
            Some((t2, j))
        },
        None => None,
    }
}

/// Parse a quoted string literal.
fn p_string(v: &Vec<char>, i: usize) -> (r: Option<(Vec<char>, usize)>)
    requires
        i <= v.len(),
    ensures
        match r {
            Some(p) => sp_string(v@, i as int) == Some((p.0@, p.1 as int)) && i < p.1 <= v.len(),
            None => sp_string(v@, i as int) is None,
        },
{
    if i < v.len() {
        let c = v[i];
        if c == '"' {
            return p_string_body(v, i + 1);
        }
    }
    None
}

/// Parse a positional record array.
fn p_record(v: &Vec<char>, i: usize) -> (r: Option<(UrlPreviewInfo, usize)>)
    requires
        i <= v.len(),
    ensures
        match r {
            Some(p) => sp_record(v@, i as int) == Some((p.0@, p.1 as int)) && i < p.1 <= v.len(),
            None => sp_record(v@, i as int) is None,
        },
{
    if !(i < v.len() && v[i] == '[') {
        return None;
    }
    let j0 = p_skip_ws(v, i + 1);
    if j0 < v.len() && v[j0] == ']' {
        let p = UrlPreviewInfo { title: String::new(), description: String::new(), image: None };
        proof {
            assert(p@ == record_of_fields(Seq::empty()));
        }
        return Some((p, j0 + 1));
    }
    let (f0, j1) = match p_string(v, j0) {
        Some(x) => x,
        None => {
            return None;
        },
    };
    let k1 = p_skip_ws(v, j1);
    if k1 < v.len() && v[k1] == ']' {
        let p = UrlPreviewInfo {
            title: chars_to_string(&f0),
            description: String::new(),
            image: None,
        };
        proof {
            assert(p@ == record_of_fields(seq![f0@]));
        }
        return Some((p, k1 + 1));
    }
    if !(k1 < v.len() && v[k1] == ',') {
        return None;
    }
    let j2s = p_skip_ws(v, k1 + 1);
    let (f1, j2) = match p_string(v, j2s) {
        Some(x) => x,
        None => {
            return None;
        },
    };
    let k2 = p_skip_ws(v, j2);
    if k2 < v.len() && v[k2] == ']' {
        let p = UrlPreviewInfo {
            title: chars_to_string(&f0),
            description: chars_to_string(&f1),
            image: None,
        };
        proof {
            assert(p@ == record_of_fields(seq![f0@, f1@]));
        }
        return Some((p, k2 + 1));
    }
    if !(k2 < v.len() && v[k2] == ',') {
        return None;
    }
    let j3s = p_skip_ws(v, k2 + 1);
    let (f2, j3) = match p_string(v, j3s) {
        Some(x) => x,
        None => {
            return None;
        },
    };
    let k3 = p_skip_ws(v, j3);
    if k3 < v.len() && v[k3] == ']' {
        let image = if f2.len() > 0 {
            Some(chars_to_string(&f2))
        } else {
            None
        };
        let p = UrlPreviewInfo {
            title: chars_to_string(&f0),
            description: chars_to_string(&f1),
            image: image,
        };
        proof {
            assert(p@ == record_of_fields(seq![f0@, f1@, f2@]));
        }
        return Some((p, k3 + 1));
    }
    None
}

/// Parse one `"url": [...]` entry.
fn p_entry(v: &Vec<char>, i: usize) -> (r: Option<((String, UrlPreviewInfo), usize)>)
    requires
        i <= v.len(),
    ensures
        match r {
            Some(p) => sp_entry(v@, i as int) == Some(((p.0.0@, p.0.1@), p.1 as int)) && i < p.1
                <= v.len(),
            None => sp_entry(v@, i as int) is None,
        },
{
    let (k, j) = match p_string(v, i) {
        Some(x) => x,
        None => {
            return None;
        },
    };
    let j2 = p_skip_ws(v, j);
    if !(j2 < v.len() && v[j2] == ':') {
        return None;
    }
    let j3 = p_skip_ws(v, j2 + 1);
    match p_record(v, j3) {
        Some((p, m)) => Some(((chars_to_string(&k), p), m)),
        None => None,
    }
}

/// Parse the entries of the inner object, consuming its closing brace.
fn p_entries(v: &Vec<char>, i: usize) -> (r: Option<(Vec<(String, UrlPreviewInfo)>, usize)>)
    requires
        i <= v.len(),
    ensures
        match r {
            Some(p) => sp_entries(v@, i as int) == Some(
                (p.0@.map_values(|e: (String, UrlPreviewInfo)| (e.0@, e.1@)), p.1 as int),
            ) && i < p.1 <= v.len(),
            None => sp_entries(v@, i as int) is None,
        },
    decreases v.len() - i,
{
    let (kv, j) = match p_entry(v, i) {
        Some(x) => x,
        None => {
            return None;
        },
    };
    let k = p_skip_ws(v, j);
    if k < v.len() && v[k] == ',' {
        let k2 = p_skip_ws(v, k + 1);
        match p_entries(v, k2) {
            Some((rest, m)) => {
                let mut rest = rest;
                let ghost kv_view = (kv.0@, kv.1@);
                rest.insert(0, kv);
                proof {
                    assert(rest@.map_values(|e: (String, UrlPreviewInfo)| (e.0@, e.1@)) =~= seq![
                        kv_view,
                    ] + rest@.skip(1).map_values(|e: (String, UrlPreviewInfo)| (e.0@, e.1@)));
                    assert(rest@.skip(1) =~= rest@.subrange(1, rest@.len() as int));
                }
                Some((rest, m))
            },
            None => None,
        }
    } else if k < v.len() && v[k] == '}' {
        let mut out: Vec<(String, UrlPreviewInfo)> = Vec::new();
        let ghost kv_view = (kv.0@, kv.1@);
        out.push(kv);
        proof {
            assert(out@.map_values(|e: (String, UrlPreviewInfo)| (e.0@, e.1@)) =~= seq![kv_view]);
        }
        Some((out, k + 1))
    } else {
        None
    }
}

/// Parse a whole persisted file.
pub fn p_file(v: &Vec<char>) -> (r: Option<Vec<(String, UrlPreviewInfo)>>)
    ensures
        match r {
            Some(es) => sp_file(v@) == Some(
                es@.map_values(|e: (String, UrlPreviewInfo)| (e.0@, e.1@)),
            ),
            None => sp_file(v@) is None,
        },
{
    let i0 = p_skip_ws(v, 0);
    if !(i0 < v.len() && v[i0] == '{') {
        return None;
    }
    let i1 = p_skip_ws(v, i0 + 1);
    let (key, i2) = match p_string(v, i1) {
        Some(x) => x,
        None => {
            return None;
        },
    };
    let key_s = chars_to_string(&key);
    if !crate::text::str_eq(key_s.as_str(), "urlPreviews") {
        return None;
    }
    let i3 = p_skip_ws(v, i2);
    if !(i3 < v.len() && v[i3] == ':') {
        return None;
    }
    let i4 = p_skip_ws(v, i3 + 1);
    if !(i4 < v.len() && v[i4] == '{') {
        return None;
    }
    let i5 = p_skip_ws(v, i4 + 1);
    if i5 < v.len() && v[i5] == '}' {
        let i6 = p_skip_ws(v, i5 + 1);
        if i6 < v.len() && v[i6] == '}' {
            if p_skip_ws(v, i6 + 1) == v.len() {
                let out: Vec<(String, UrlPreviewInfo)> = Vec::new();
                proof {
                    assert(out@.map_values(|e: (String, UrlPreviewInfo)| (e.0@, e.1@)) =~= Seq::<
                        (Seq<char>, PreviewV),
                    >::empty());
                }
                return Some(out);
            }
        }
        return None;
    }
    match p_entries(v, i5) {
        Some((entries, i6)) => {
            let i7 = p_skip_ws(v, i6);
            if i7 < v.len() && v[i7] == '}' {
                if p_skip_ws(v, i7 + 1) == v.len() {
                    return Some(entries);
                }
            }
            None
        },
        None => None,
    }
}


/// A whole document holding exactly one positional record array, with
/// surrounding whitespace tolerated.
pub open spec fn sp_record_doc(s: Seq<char>) -> Option<PreviewV> {
    let i0 = sp_skip_ws(s, 0);
    match sp_record(s, i0) {
        Some((p, j)) => if sp_skip_ws(s, j) == s.len() {
            Some(p)
        } else {
            None
        },
        None => None,
    }
}

impl UrlPreviewInfo {
    /// Serialize this record to its compact positional array.
    pub fn serialize(&self) -> (r: String)
        ensures
            r@ == record_json(self@),
    {
        record_to_json(self)
    }

    /// Parse a record from its positional-array form. Missing trailing
    /// elements default to the empty string, and an empty third element
    /// means no image.
    pub fn deserialize(s: &str) -> (r: Option<UrlPreviewInfo>)
        ensures
            match r {
                Some(p) => sp_record_doc(s@) == Some(p@),
                None => sp_record_doc(s@) is None,
            },
    {
        let v = string_to_chars(s);
        let i0 = p_skip_ws(&v, 0);
        match p_record(&v, i0) {
            Some((p, j)) => {
                if p_skip_ws(&v, j) == v.len() {
                    Some(p)
                } else {
                    None
                }
            },
            None => None,
        }
    }
}


// ---------------------------------------------------------------------
// The reader inverts the writer.
// ---------------------------------------------------------------------
proof fn lemma_hex_digit_val(n: int)
    requires
        0 <= n < 16,
    ensures
        hex_val(hex_digit(n)) == n,
{
}

/// The escaped form decomposes at its head.
proof fn lemma_escape_head(s: Seq<char>)
    requires
        s.len() > 0,
    ensures
        escape_str(s) == escape_char(s[0]) + escape_str(s.skip(1)),
    decreases s.len(),
{
    if s.len() == 1 {
        assert(s.drop_last().len() == 0);
        assert(s[0] == s.last());
        assert(s.skip(1).len() == 0);
        assert(escape_str(s.drop_last()) =~= Seq::<char>::empty());
        assert(escape_str(s.skip(1)) =~= Seq::<char>::empty());
        assert(escape_str(s) == escape_str(s.drop_last()) + escape_char(s.last()));
        assert(escape_str(s) =~= escape_char(s[0]) + escape_str(s.skip(1)));
    } else {
        lemma_escape_head(s.drop_last());
        assert(s.drop_last()[0] == s[0]);
        assert(s.skip(1).drop_last() =~= s.drop_last().skip(1));
        assert(s.skip(1).last() == s.last());
        assert(escape_str(s.skip(1)) == escape_str(s.skip(1).drop_last()) + escape_char(
            s.skip(1).last(),
        ));
        assert(escape_str(s) =~= escape_char(s[0]) + escape_str(s.skip(1)));
    }
}

/// Skipping whitespace at a non-blank character goes nowhere.
proof fn lemma_skip_ws_here(s: Seq<char>, i: int)
    requires
        0 <= i <= s.len(),
        i < s.len() ==> !is_ws(s[i]),
    ensures
        sp_skip_ws(s, i) == i,
{
    assert(!(i < s.len() && is_ws(s[i])));
}

/// Parsing an escaped string body inverts the writer's escaping.
proof fn lemma_parse_escaped(t: Seq<char>, j: int, u: Seq<char>, b: Seq<char>)
    requires
        0 <= j <= t.len(),
        t.skip(j) == escape_str(u) + seq!['"'] + b,
    ensures
        sp_string_body(t, j) == Some((u, j + escape_str(u).len() + 1)),
    decreases u.len(),
{
    if u.len() == 0 {
        assert(escape_str(u).len() == 0);
        assert(t.skip(j)[0] == '"');
        assert(t[j] == '"');
    } else {
        lemma_escape_head(u);
        let c = u[0];
        let e0 = escape_char(c);
        assert(t.skip(j) =~= e0 + (escape_str(u.skip(1)) + seq!['"'] + b));
        let j2 = j + e0.len();
        assert(j2 <= t.len()) by {
            assert(t.skip(j).len() == t.len() - j);
        }
        assert(t.skip(j2).len() == escape_str(u.skip(1)).len() + 1 + b.len()) by {
            assert(t.skip(j).len() == e0.len() + (escape_str(u.skip(1)) + seq!['"'] + b).len());
        }
        assert forall|k: int|
            0 <= k < t.skip(j2).len() implies #[trigger] t.skip(j2)[k] == (escape_str(u.skip(1))
            + seq!['"'] + b)[k] by {
            assert(t.skip(j2)[k] == t[j2 + k]);
            assert(t.skip(j)[k + e0.len()] == t[j + (k + e0.len())]);
            assert(t.skip(j)[k + e0.len()] == (e0 + (escape_str(u.skip(1)) + seq!['"'] + b))[k
                + e0.len()]);
            assert((e0 + (escape_str(u.skip(1)) + seq!['"'] + b))[k + e0.len()] == (escape_str(
                u.skip(1),
            ) + seq!['"'] + b)[k]);
        }
        assert(t.skip(j2) =~= escape_str(u.skip(1)) + seq!['"'] + b);
        lemma_parse_escaped(t, j2, u.skip(1), b);
        assert(seq![c] + u.skip(1) =~= u);
        let rest0 = escape_str(u.skip(1)) + seq!['"'] + b;
        assert forall|k: int| 0 <= k < e0.len() implies #[trigger] t[j + k] == e0[k] by {
            assert(t.skip(j)[k] == t[j + k]);
            assert(t.skip(j)[k] == (e0 + rest0)[k]);
            assert((e0 + rest0)[k] == e0[k]);
        }
        if c == '"' {
            assert(e0 == seq!['\\', '"']);
            assert(t[j + 0] == '\\' && t[j + 1] == '"');
            assert(sp_string_body(t, j) == Some((u, j + escape_str(u).len() + 1)));
        } else if c == '\\' {
            assert(e0 == seq!['\\', '\\']);
            assert(t[j + 0] == '\\' && t[j + 1] == '\\');
        } else if c == '\n' {
            assert(e0 == seq!['\\', 'n']);
            assert(t[j + 0] == '\\' && t[j + 1] == 'n');
        } else if c == '\r' {
            assert(e0 == seq!['\\', 'r']);
            assert(t[j + 0] == '\\' && t[j + 1] == 'r');
        } else if c == '\t' {
            assert(e0 == seq!['\\', 't']);
            assert(t[j + 0] == '\\' && t[j + 1] == 't');
        } else if (c as u32) < 32 {
            let n1 = (c as u32) as int / 16;
            let n2 = (c as u32) as int % 16;
            assert(e0 == seq!['\\', 'u', '0', '0', hex_digit(n1), hex_digit(n2)]);
            assert(t[j + 0] == '\\' && t[j + 1] == 'u' && t[j + 2] == '0' && t[j + 3] == '0');
            assert(t[j + 4] == hex_digit(n1) && t[j + 5] == hex_digit(n2));
            lemma_hex_digit_val(n1);
            lemma_hex_digit_val(n2);
            assert(hex_val(t[j + 2]) == 0 && hex_val(t[j + 3]) == 0);
            let v = hex_val(t[j + 2]) * 4096 + hex_val(t[j + 3]) * 256 + hex_val(t[j + 4]) * 16
                + hex_val(t[j + 5]);
            assert(v == n1 * 16 + n2);
            assert(v == c as u32) by {
                assert(n1 * 16 + n2 == c as u32);
            }
            assert(v < 128);
            let x = ((v as u8) as char);
            assert(x as u32 == v);
            vstd::utf8::char_u32_cast(x, v as u32);
            vstd::utf8::char_u32_cast(c, c as u32);
            assert(x == c);
            assert(sp_string_body(t, j) == Some((u, j + escape_str(u).len() + 1)));
        } else {
            assert(e0 == seq![c]);
            assert(t[j + 0] == c);
            assert(c != '"' && c != '\\');
            assert(sp_string_body(t, j) == Some((u, j + escape_str(u).len() + 1)));
        }
    }
}

/// Parsing a quoted literal inverts the writer's quoting.
proof fn lemma_parse_quoted(t: Seq<char>, j: int, u: Seq<char>, b: Seq<char>)
    requires
        0 <= j <= t.len(),
        t.skip(j) == quote_json(u) + b,
    ensures
        sp_string(t, j) == Some((u, j + quote_json(u).len())),
{
    let q = quote_json(u);
    assert(q == seq!['"'] + escape_str(u) + seq!['"']);
    assert(q[0] == '"');
    assert(t.skip(j)[0] == (q + b)[0]);
    assert((q + b)[0] == q[0]);
    assert(t[j] == '"') by {
        assert(t.skip(j)[0] == '"');
        assert(t.skip(j).len() == q.len() + b.len());
        assert(q.len() == 2 + escape_str(u).len());
        assert(j < t.len());
        assert(t.skip(j) == t.subrange(j, t.len() as int));
        assert(t.subrange(j, t.len() as int)[0] == t[j + 0]);
    }
    assert(j + 1 <= t.len()) by {
        assert(t.skip(j).len() == t.len() - j);
    }
    let target = escape_str(u) + seq!['"'] + b;
    assert(t.skip(j + 1).len() == target.len()) by {
        assert(t.skip(j).len() == q.len() + b.len());
    }
    assert forall|k: int| 0 <= k < target.len() implies #[trigger] t.skip(j + 1)[k]
        == target[k] by {
        assert(t.skip(j + 1)[k] == t[j + 1 + k]);
        assert(t.skip(j)[k + 1] == t[j + (k + 1)]);
        assert(t.skip(j)[k + 1] == (q + b)[k + 1]);
        if k + 1 < q.len() {
            assert((q + b)[k + 1] == q[k + 1]);
            assert(q[k + 1] == (seq!['"'] + escape_str(u) + seq!['"'])[k + 1]);
            if k < escape_str(u).len() {
                assert((seq!['"'] + escape_str(u) + seq!['"'])[k + 1] == escape_str(u)[k]);
                assert(target[k] == escape_str(u)[k]);
            } else {
                assert(k == escape_str(u).len());
                assert((seq!['"'] + escape_str(u) + seq!['"'])[k + 1] == '"');
                assert(target[k] == '"');
            }
        } else {
            assert((q + b)[k + 1] == b[k + 1 - q.len()]);
            assert(target[k] == b[k - (escape_str(u).len() + 1)]);
        }
    }
    assert(t.skip(j + 1) =~= target);
    lemma_parse_escaped(t, j + 1, u, b);
}

/// Peeling a known prefix off a suffix of the text.
proof fn lemma_skip_parts(t: Seq<char>, j: int, a: Seq<char>, b: Seq<char>)
    requires
        0 <= j <= t.len(),
        t.skip(j) == a + b,
    ensures
        j + a.len() <= t.len(),
        t.skip(j + a.len()) == b,
        forall|k: int| 0 <= k < a.len() ==> #[trigger] t[j + k] == a[k],
{
    assert(t.skip(j).len() == a.len() + b.len());
    assert forall|k: int| 0 <= k < a.len() implies #[trigger] t[j + k] == a[k] by {
        assert(t.skip(j)[k] == t[j + k]);
        assert((a + b)[k] == a[k]);
    }
    assert(t.skip(j + a.len()).len() == b.len());
    assert forall|k: int|
        0 <= k < b.len() implies #[trigger] t.skip(j + a.len() as int)[k] == b[k] by {
        assert(t.skip(j + a.len() as int)[k] == t[j + a.len() + k]);
        assert(t.skip(j)[a.len() + k] == t[j + (a.len() + k)]);
        assert((a + b)[a.len() + k] == b[k]);
    }
    assert(t.skip(j + a.len() as int) =~= b);
}

/// Parsing an embedded record array inverts the writer, up to the
/// empty-image normalization.
proof fn lemma_parse_record(t: Seq<char>, j: int, p: PreviewV, b: Seq<char>)
    requires
        0 <= j <= t.len(),
        t.skip(j) == record_json(p) + b,
        p.image != Some(Seq::<char>::empty()),
    ensures
        sp_record(t, j) == Some((p, j + record_json(p).len() as int)),
{
    let img = match p.image {
        Some(i) => i,
        None => Seq::<char>::empty(),
    };
    let q1 = quote_json(p.title);
    let q2 = quote_json(p.description);
    let q3 = quote_json(img);
    assert(record_json(p) =~= seq!['['] + (q1 + (seq![','] + (q2 + (seq![','] + (q3 + seq![
        ']',
    ]))))));
    assert(t.skip(j) =~= seq!['['] + ((q1 + (seq![','] + (q2 + (seq![','] + (q3 + seq![']'])))))
        + b));
    lemma_skip_parts(t, j, seq!['['], (q1 + (seq![','] + (q2 + (seq![','] + (q3 + seq![']'])))))
        + b);
    assert(t[j + 0] == '[');
    let j1 = j + 1;
    assert(t.skip(j1) =~= q1 + ((seq![','] + (q2 + (seq![','] + (q3 + seq![']'])))) + b));
    lemma_skip_parts(t, j1, q1, (seq![','] + (q2 + (seq![','] + (q3 + seq![']'])))) + b);
    assert(q1[0] == '"');
    assert(t[j1 + 0] == '"');
    lemma_skip_ws_here(t, j1);
    lemma_parse_quoted(t, j1, p.title, (seq![','] + (q2 + (seq![','] + (q3 + seq![']'])))) + b);
    let e1 = j1 + q1.len() as int;
    assert(t.skip(e1) =~= seq![','] + ((q2 + (seq![','] + (q3 + seq![']']))) + b));
    lemma_skip_parts(t, e1, seq![','], (q2 + (seq![','] + (q3 + seq![']']))) + b);
    assert(t[e1 + 0] == ',');
    lemma_skip_ws_here(t, e1);
    let j2 = e1 + 1;
    assert(t.skip(j2) =~= q2 + ((seq![','] + (q3 + seq![']'])) + b));
    lemma_skip_parts(t, j2, q2, (seq![','] + (q3 + seq![']'])) + b);
    assert(t[j2 + 0] == '"');
    lemma_skip_ws_here(t, j2);
    lemma_parse_quoted(t, j2, p.description, (seq![','] + (q3 + seq![']'])) + b);
    let e2 = j2 + q2.len() as int;
    assert(t.skip(e2) =~= seq![','] + ((q3 + seq![']']) + b));
    lemma_skip_parts(t, e2, seq![','], (q3 + seq![']']) + b);
    assert(t[e2 + 0] == ',');
    lemma_skip_ws_here(t, e2);
    let j3 = e2 + 1;
    assert(t.skip(j3) =~= q3 + (seq![']'] + b));
    lemma_skip_parts(t, j3, q3, seq![']'] + b);
    assert(t[j3 + 0] == '"');
    lemma_skip_ws_here(t, j3);
    lemma_parse_quoted(t, j3, img, seq![']'] + b);
    let e3 = j3 + q3.len() as int;
    assert(t.skip(e3) =~= seq![']'] + b);
    lemma_skip_parts(t, e3, seq![']'], b);
    assert(t[e3 + 0] == ']');
    lemma_skip_ws_here(t, e3);
    assert(record_of_fields(seq![p.title, p.description, img]) == p) by {
        assert(seq![p.title, p.description, img][0] == p.title);
        assert(seq![p.title, p.description, img][1] == p.description);
        assert(seq![p.title, p.description, img][2] == img);
        if p.image is Some {
            assert(img.len() > 0);
        }
    }
    assert(e3 + 1 == j + record_json(p).len());
}

/// Round trip: a record written by the library reads back as the same
/// record. An image field holding an empty string is written as the
/// same empty third element as an absent image, so it reads back as
/// absent; every other record is reproduced exactly.
pub proof fn lemma_record_round_trip(p: PreviewV)
    requires
        p.image != Some(Seq::<char>::empty()),
    ensures
        sp_record_doc(record_json(p)) == Some(p),
{
    let t = record_json(p);
    assert(t.skip(0) =~= record_json(p) + Seq::<char>::empty());
    lemma_parse_record(t, 0, p, Seq::empty());
    assert(t[0] == '[');
    lemma_skip_ws_here(t, 0);
    lemma_skip_ws_here(t, t.len() as int);
}

/// The comma-separated entries decompose at their head.
proof fn lemma_entries_head(s: Seq<(Seq<char>, PreviewV)>)
    requires
        s.len() >= 2,
    ensures
        entries_json(s) == entry_json(s[0]) + seq![','] + entries_json(s.skip(1)),
    decreases s.len(),
{
    if s.len() == 2 {
        assert(s.drop_last().len() == 1);
        assert(s.drop_last()[0] == s[0]);
        assert(entries_json(s.drop_last()) == entry_json(s[0]));
        assert(s.skip(1).len() == 1);
        assert(s.skip(1)[0] == s[1]);
        assert(entries_json(s.skip(1)) == entry_json(s[1]));
        assert(s.last() == s[1]);
        assert(entries_json(s) =~= entry_json(s[0]) + seq![','] + entries_json(s.skip(1)));
    } else {
        lemma_entries_head(s.drop_last());
        assert(s.drop_last()[0] == s[0]);
        assert(s.skip(1).drop_last() =~= s.drop_last().skip(1));
        assert(s.skip(1).last() == s.last());
        assert(s.skip(1).len() >= 2);
        assert(entries_json(s.skip(1)) == entries_json(s.skip(1).drop_last()) + seq![',']
            + entry_json(s.skip(1).last()));
        assert(entries_json(s) =~= entry_json(s[0]) + seq![','] + entries_json(s.skip(1)));
    }
}

/// Parsing an embedded entry inverts the writer.
proof fn lemma_parse_entry(t: Seq<char>, j: int, e: (Seq<char>, PreviewV), b: Seq<char>)
    requires
        0 <= j <= t.len(),
        t.skip(j) == entry_json(e) + b,
        e.1.image != Some(Seq::<char>::empty()),
    ensures
        sp_entry(t, j) == Some((e, j + entry_json(e).len() as int)),
{
    let qk = quote_json(e.0);
    let rec = record_json(e.1);
    assert(t.skip(j) =~= qk + ((seq![':'] + (rec + Seq::<char>::empty())) + b));
    lemma_parse_quoted(t, j, e.0, (seq![':'] + (rec + Seq::<char>::empty())) + b);
    lemma_skip_parts(t, j, qk, (seq![':'] + (rec + Seq::<char>::empty())) + b);
    let jc = j + qk.len() as int;
    assert(t.skip(jc) =~= seq![':'] + ((rec + Seq::<char>::empty()) + b));
    lemma_skip_parts(t, jc, seq![':'], (rec + Seq::<char>::empty()) + b);
    assert(t[jc + 0] == ':');
    lemma_skip_ws_here(t, jc);
    let jr = jc + 1;
    assert(t.skip(jr) =~= rec + b);
    lemma_skip_parts(t, jr, rec, b);
    assert(rec[0] == '[');
    assert(t[jr + 0] == '[');
    lemma_skip_ws_here(t, jr);
    lemma_parse_record(t, jr, e.1, b);
    assert(jr + rec.len() == j + entry_json(e).len());
}

/// Every record among the entries is in its written normal form: no
/// image field holds the empty string.
pub open spec fn records_normal(s: Seq<(Seq<char>, PreviewV)>) -> bool {
    forall|i: int| 0 <= i < s.len() ==> #[trigger] s[i].1.image != Some(Seq::<char>::empty())
}

/// Parsing the embedded entry list (with its closing brace) inverts
/// the writer.
proof fn lemma_parse_entries(t: Seq<char>, j: int, s: Seq<(Seq<char>, PreviewV)>, b: Seq<char>)
    requires
        0 <= j <= t.len(),
        s.len() > 0,
        records_normal(s),
        t.skip(j) == entries_json(s) + seq!['}'] + b,
    ensures
        sp_entries(t, j) == Some((s, j + entries_json(s).len() + 1)),
    decreases s.len(),
{
    if s.len() == 1 {
        assert(entries_json(s) == entry_json(s[0]));
        assert(t.skip(j) =~= entry_json(s[0]) + (seq!['}'] + b));
        lemma_parse_entry(t, j, s[0], seq!['}'] + b);
        lemma_skip_parts(t, j, entry_json(s[0]), seq!['}'] + b);
        let k = j + entry_json(s[0]).len() as int;
        lemma_skip_parts(t, k, seq!['}'], b);
        assert(t[k + 0] == '}');
        lemma_skip_ws_here(t, k);
        assert(seq![s[0]] =~= s);
    } else {
        lemma_entries_head(s);
        assert(t.skip(j) =~= entry_json(s[0]) + ((seq![','] + (entries_json(s.skip(1)) + seq![
            '}',
        ] + Seq::<char>::empty())) + b));
        lemma_parse_entry(
            t,
            j,
            s[0],
            (seq![','] + (entries_json(s.skip(1)) + seq!['}'] + Seq::<char>::empty())) + b,
        );
        lemma_skip_parts(
            t,
            j,
            entry_json(s[0]),
            (seq![','] + (entries_json(s.skip(1)) + seq!['}'] + Seq::<char>::empty())) + b,
        );
        let k = j + entry_json(s[0]).len() as int;
        assert(t.skip(k) =~= seq![','] + ((entries_json(s.skip(1)) + seq!['}']) + b));
        lemma_skip_parts(t, k, seq![','], (entries_json(s.skip(1)) + seq!['}']) + b);
        assert(t[k + 0] == ',');
        lemma_skip_ws_here(t, k);
        let k2 = k + 1;
        assert(t.skip(k2) =~= entries_json(s.skip(1)) + seq!['}'] + b);
        assert(records_normal(s.skip(1))) by {
            assert(forall|i: int| 0 <= i < s.skip(1).len() ==> s.skip(1)[i] == s[i + 1]);
        }
        assert(s.skip(1).len() >= 1);
        assert(entries_json(s.skip(1)).len() > 0) by {
            lemma_entries_nonempty(s.skip(1));
        }
        assert(t.skip(k2)[0] == entries_json(s.skip(1))[0]);
        assert(entries_json(s.skip(1))[0] == '"') by {
            lemma_entries_first_char(s.skip(1));
        }
        assert(t.skip(k2) =~= entries_json(s.skip(1)) + (seq!['}'] + b));
        assert(t[k2 + 0] == '"') by {
            lemma_skip_parts(t, k2, entries_json(s.skip(1)), seq!['}'] + b);
        }
        lemma_skip_ws_here(t, k2);
        lemma_parse_entries(t, k2, s.skip(1), b);
        assert(seq![s[0]] + s.skip(1) =~= s);
        assert(k2 + entries_json(s.skip(1)).len() + 1 == j + entries_json(s).len() + 1);
    }
}

/// A non-empty entry list's text is non-empty and starts with a quote.
proof fn lemma_entries_nonempty(s: Seq<(Seq<char>, PreviewV)>)
    requires
        s.len() >= 1,
    ensures
        entries_json(s).len() > 0,
    decreases s.len(),
{
    if s.len() == 1 {
        assert(entries_json(s) == entry_json(s[0]));
        assert(entry_json(s[0]).len() > 0);
    } else {
        lemma_entries_nonempty(s.drop_last());
    }
}

proof fn lemma_entries_first_char(s: Seq<(Seq<char>, PreviewV)>)
    requires
        s.len() >= 1,
    ensures
        entries_json(s).len() > 0,
        entries_json(s)[0] == '"',
    decreases s.len(),
{
    if s.len() == 1 {
        assert(entries_json(s) == entry_json(s[0]));
        assert(quote_json(s[0].0)[0] == '"');
        assert(entry_json(s[0])[0] == '"');
    } else {
        lemma_entries_head(s);
        lemma_entries_first_char(s.skip(1));
        assert(entry_json(s[0])[0] == '"') by {
            assert(quote_json(s[0].0)[0] == '"');
        }
        assert(entries_json(s)[0] == entry_json(s[0])[0]);
    }
}

/// Folding entries with strictly sorted distinct keys reproduces them.
proof fn lemma_fold_sorted_identity(s: Seq<(Seq<char>, PreviewV)>)
    requires
        strict_sorted(s),
    ensures
        fold_entries(s) == s,
    decreases s.len(),
{
    if s.len() > 0 {
        assert(strict_sorted(s.drop_last())) by {
            assert(forall|i: int|
                0 <= i < s.drop_last().len() ==> s.drop_last()[i] == s[i]);
        }
        lemma_fold_sorted_identity(s.drop_last());
        let e = s.last();
        assert(forall|i: int|
            0 <= i < s.drop_last().len() ==> crate::text::lex_lt(
                #[trigger] s.drop_last()[i].0,
                e.0,
            ));
        assert forall|i: int| 0 <= i < s.drop_last().len() implies #[trigger] s.drop_last()[i].0
            != e.0 by {
            if s.drop_last()[i].0 == e.0 {
                crate::text::lemma_lex_irrefl(e.0);
            }
        }
        lemma_assoc_find_none(s.drop_last(), e.0);
        lemma_sorted_insert_append(s.drop_last(), e.0, e.1);
        assert(s.drop_last().push(e) =~= s);
    }
}

/// Inserting a key greater than every present key appends.
proof fn lemma_sorted_insert_append(s: Seq<(Seq<char>, PreviewV)>, key: Seq<char>, val: PreviewV)
    requires
        forall|i: int| 0 <= i < s.len() ==> crate::text::lex_lt(#[trigger] s[i].0, key),
    ensures
        sorted_insert(s, key, val) == s.push((key, val)),
    decreases s.len(),
{
    if s.len() == 0 {
        assert(sorted_insert(s, key, val) =~= s.push((key, val)));
    } else {
        assert(!crate::text::lex_lt(key, s[0].0)) by {
            if crate::text::lex_lt(key, s[0].0) {
                crate::text::lemma_lex_trans(key, s[0].0, key);
                crate::text::lemma_lex_irrefl(key);
            }
        }
        assert(forall|i: int| 0 <= i < s.skip(1).len() ==> s.skip(1)[i] == s[i + 1]);
        lemma_sorted_insert_append(s.skip(1), key, val);
        assert(sorted_insert(s, key, val) =~= s.push((key, val)));
    }
}

/// Persistence round trip: the file written for a sorted, non-empty
/// preview table parses back to exactly those previews, and loading
/// folds them back unchanged. With the exported text named `t`,
/// `sp_file(t)` is the written table and `fold_entries` of it is the
/// identity — so a cache exported and loaded back holds the same
/// records.
pub proof fn lemma_export_round_trip(previews: Seq<(Seq<char>, PreviewV)>)
    requires
        strict_sorted(previews),
        previews.len() > 0,
        records_normal(previews),
    ensures
        sp_file(export_json_spec(previews)) == Some(previews),
        fold_entries(previews) == previews,
{
    lemma_fold_sorted_identity(previews);
    let t = export_json_spec(previews);
    let qk = quote_json("urlPreviews"@);
    let es = entries_json(previews);
    assert(t =~= seq!['{'] + (qk + (seq![':'] + (seq!['{'] + (es + (seq!['}'] + seq!['}']))))));
    assert(t.skip(0) =~= seq!['{'] + ((qk + (seq![':'] + (seq!['{'] + (es + (seq!['}'] + seq![
        '}',
    ]))))) + Seq::<char>::empty()));
    lemma_skip_parts(t, 0, seq!['{'], (qk + (seq![':'] + (seq!['{'] + (es + (seq!['}'] + seq![
        '}',
    ]))))) + Seq::<char>::empty());
    assert(t[0] == '{');
    lemma_skip_ws_here(t, 0);
    let j1: int = 1;
    assert(t.skip(j1) =~= qk + ((seq![':'] + (seq!['{'] + (es + (seq!['}'] + seq!['}'])))) + Seq::<
        char,
    >::empty()));
    lemma_skip_parts(t, j1, qk, (seq![':'] + (seq!['{'] + (es + (seq!['}'] + seq!['}'])))) + Seq::<
        char,
    >::empty());
    assert(qk[0] == '"');
    assert(t[j1 + 0] == '"');
    lemma_skip_ws_here(t, j1);
    lemma_parse_quoted(
        t,
        j1,
        "urlPreviews"@,
        (seq![':'] + (seq!['{'] + (es + (seq!['}'] + seq!['}'])))) + Seq::<char>::empty(),
    );
    let jc = j1 + qk.len() as int;
    assert(t.skip(jc) =~= seq![':'] + ((seq!['{'] + (es + (seq!['}'] + seq!['}'])))));
    lemma_skip_parts(t, jc, seq![':'], seq!['{'] + (es + (seq!['}'] + seq!['}'])));
    assert(t[jc + 0] == ':');
    lemma_skip_ws_here(t, jc);
    let jo = jc + 1;
    assert(t.skip(jo) =~= seq!['{'] + (es + (seq!['}'] + seq!['}'])));
    lemma_skip_parts(t, jo, seq!['{'], es + (seq!['}'] + seq!['}']));
    assert(t[jo + 0] == '{');
    let je = jo + 1;
    assert(t.skip(je) =~= es + seq!['}'] + seq!['}']);
    lemma_entries_first_char(previews);
    assert(t[je + 0] == '"') by {
        lemma_skip_parts(t, je, es, seq!['}'] + seq!['}']);
    }
    lemma_skip_ws_here(t, je);
    lemma_parse_entries(t, je, previews, seq!['}']);
    let m = je + es.len() + 1;
    assert(t.skip(je) =~= es + (seq!['}'] + seq!['}']));
    lemma_skip_parts(t, je, es, seq!['}'] + seq!['}']);
    lemma_skip_parts(t, je + es.len() as int, seq!['}'], seq!['}']);
    assert(t.skip(m) =~= seq!['}'] + Seq::<char>::empty());
    lemma_skip_parts(t, m, seq!['}'], Seq::<char>::empty());
    assert(t[m + 0] == '}');
    lemma_skip_ws_here(t, m);
    assert(m + 1 == t.len());
    lemma_skip_ws_here(t, t.len() as int);
}

} // verus!