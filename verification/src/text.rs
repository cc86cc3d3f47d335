//! Character-level text helpers shared by the cache, the persisted-file
//! codec and the Markdown transducer: conversions between `String` and
//! `Vec<char>`, lexicographic ordering of character sequences, and a
//! trusted wrapper for Unicode lowercasing.

use vstd::prelude::*;

verus! {

/// Relies on `std::iter::Iterator::collect` for `String` from chars: the
/// collected string holds exactly the characters of `v`, in order.
#[verifier::external_body]
pub fn chars_to_string(v: &Vec<char>) -> (s: String)
    ensures
        s@ == v@,
{
    v.iter().collect()
}

/// Relies on `str::chars` and `Iterator::collect`: the collected vector
/// holds exactly the characters of `s`, in order.
#[verifier::external_body]
pub fn string_to_chars(s: &str) -> (v: Vec<char>)
    ensures
        v@ == s@,
{
    s.chars().collect()
}

/// Relies on `str`'s `PartialEq`: two string slices are equal exactly
/// when their characters are.
#[verifier::external_body]
pub fn str_eq(a: &str, b: &str) -> (r: bool)
    ensures
        r == (a@ == b@),
{
    a == b
}

/// What `str::to_lowercase` returns: a function of the characters alone.
pub uninterp spec fn lower_of(s: Seq<char>) -> Seq<char>;

/// Relies on `str::to_lowercase`: the result depends on the characters
/// alone, and an empty string stays empty.
#[verifier::external_body]
pub fn lowercase(s: &str) -> (r: String)
    ensures
        r@ == lower_of(s@),
        s@.len() == 0 ==> r@.len() == 0,
{
    s.to_lowercase()
}

/// Strict lexicographic order on character sequences, by code point.
pub open spec fn lex_lt(a: Seq<char>, b: Seq<char>) -> bool
    decreases a.len(),
{
    if b.len() == 0 {
        false
    } else if a.len() == 0 {
        true
    } else if a[0] != b[0] {
        (a[0] as u32) < (b[0] as u32)
    } else {
        lex_lt(a.skip(1), b.skip(1))
    }
}

/// Lexicographic order is trichotomous: two sequences that are not
/// ordered either way are equal.
pub proof fn lemma_lex_trichotomy(a: Seq<char>, b: Seq<char>)
    requires
        !lex_lt(a, b),
        !lex_lt(b, a),
    ensures
        a == b,
    decreases a.len(),
{
    if b.len() == 0 {
        assert(a.len() == 0);
        assert(a =~= b);
    } else {
        assert(a.len() != 0);
        if a[0] != b[0] {
            vstd::utf8::char_u32_cast(a[0], a[0] as u32);
            vstd::utf8::char_u32_cast(b[0], b[0] as u32);
            assert(false);
        } else {
            lemma_lex_trichotomy(a.skip(1), b.skip(1));
            assert(a =~= seq![a[0]] + a.skip(1));
            assert(b =~= seq![b[0]] + b.skip(1));
        }
    }
}

/// Lexicographic order is irreflexive.
pub proof fn lemma_lex_irrefl(a: Seq<char>)
    ensures
        !lex_lt(a, a),
    decreases a.len(),
{
    if a.len() != 0 {
        lemma_lex_irrefl(a.skip(1));
    }
}

/// Lexicographic order is transitive.
pub proof fn lemma_lex_trans(a: Seq<char>, b: Seq<char>, c: Seq<char>)
    requires
        lex_lt(a, b),
        lex_lt(b, c),
    ensures
        lex_lt(a, c),
    decreases a.len() + b.len() + c.len(),
{
    if b.len() == 0 || c.len() == 0 {
    } else if a.len() == 0 {
    } else {
        if a[0] == b[0] && b[0] == c[0] {
            lemma_lex_trans(a.skip(1), b.skip(1), c.skip(1));
        }
    }
}

/// Compare two character vectors in strict lexicographic order.
pub fn chars_lex_lt(a: &Vec<char>, b: &Vec<char>) -> (r: bool)
    ensures
        r == lex_lt(a@, b@),
{
    let mut i: usize = 0;
    proof {
        assert(a@.skip(0) =~= a@);
        assert(b@.skip(0) =~= b@);
    }
    loop
        invariant
            i <= a.len(),
            i <= b.len(),
            a@.skip(i as int).len() == a@.len() - i,
            lex_lt(a@, b@) == lex_lt(a@.skip(i as int), b@.skip(i as int)),
        decreases a.len() - i,
    {
        if i == b.len() {
            return false;
        }
        if i == a.len() {
            return true;
        }
        let ca = a[i];
        let cb = b[i];
        if ca != cb {
            proof {
                assert(a@.skip(i as int)[0] == a@[i as int]);
                assert(b@.skip(i as int)[0] == b@[i as int]);
            }
            return (ca as u32) < (cb as u32);
        }
        proof {
            assert(a@.skip(i as int)[0] == a@[i as int]);
            assert(b@.skip(i as int)[0] == b@[i as int]);
            assert(a@.skip(i as int).skip(1) =~= a@.skip(i + 1));
            assert(b@.skip(i as int).skip(1) =~= b@.skip(i + 1));
        }
        i = i + 1;
    }
}

/// Compare two strings in strict lexicographic order by code point.
pub fn str_lex_lt(a: &str, b: &str) -> (r: bool)
    ensures
        r == lex_lt(a@, b@),
{
    let va = string_to_chars(a);
    let vb = string_to_chars(b);
    chars_lex_lt(&va, &vb)
}

/// The first `n` characters of `s`, or all of `s` if it is shorter.
pub open spec fn trunc(s: Seq<char>, n: int) -> Seq<char> {
    if s.len() <= n {
        s
    } else {
        s.take(n)
    }
}

/// Truncate a string to at most `n` characters.
pub fn truncate_chars(s: &str, n: usize) -> (r: String)
    ensures
        r@ == trunc(s@, n as int),
{
    let v = string_to_chars(s);
    if v.len() <= n {
        chars_to_string(&v)
    } else {
        let mut v = v;
        v.truncate(n);
        let r = chars_to_string(&v);
        proof {
            assert(v@ =~= s@.take(n as int));
        }
        r
    }
}

/// Append the characters of `s`.
pub fn push_str_chars(out: &mut Vec<char>, s: &str)
    ensures
        final(out)@ == old(out)@ + s@,
{
    let mut v = string_to_chars(s);
    out.append(&mut v);
}

/// A blank character, for trimming.
pub open spec fn is_space(c: char) -> bool {
    c == ' ' || c == '\t' || c == '\n' || c == '\r'
}

/// `s` without leading blanks.
pub open spec fn trim_start_spec(s: Seq<char>) -> Seq<char>
    decreases s.len(),
{
    if s.len() > 0 && is_space(s[0]) {
        trim_start_spec(s.skip(1))
    } else {
        s
    }
}

/// `s` without trailing blanks.
pub open spec fn trim_end_spec(s: Seq<char>) -> Seq<char>
    decreases s.len(),
{
    if s.len() > 0 && is_space(s.last()) {
        trim_end_spec(s.drop_last())
    } else {
        s
    }
}

/// `s` without leading and trailing blanks.
pub open spec fn trim_spec(s: Seq<char>) -> Seq<char> {
    trim_end_spec(trim_start_spec(s))
}

/// Drop leading blanks.
pub fn trim_start_chars(v: Vec<char>) -> (r: Vec<char>)
    ensures
        r@ == trim_start_spec(v@),
    decreases v.len(),
{
    if v.len() > 0 {
        let c = v[0];
        if c == ' ' || c == '\t' || c == '\n' || c == '\r' {
            let mut v2 = v;
            let ghost before = v2@;
            v2.remove(0);
            proof {
                assert(v2@ =~= before.skip(1));
            }
            return trim_start_chars(v2);
        }
    }
    v
}

/// Drop trailing blanks.
pub fn trim_end_chars(v: Vec<char>) -> (r: Vec<char>)
    ensures
        r@ == trim_end_spec(v@),
    decreases v.len(),
{
    if v.len() > 0 {
        let c = v[v.len() - 1];
        if c == ' ' || c == '\t' || c == '\n' || c == '\r' {
            let mut v2 = v;
            let ghost before = v2@;
            v2.pop();
            proof {
                assert(v2@ =~= before.drop_last());
            }
            return trim_end_chars(v2);
        }
    }
    v
}

/// Drop leading and trailing blanks.
pub fn trim_chars(v: Vec<char>) -> (r: Vec<char>)
    ensures
        r@ == trim_spec(v@),
{
    trim_end_chars(trim_start_chars(v))
}

/// Trim a string slice to a fresh `String`.
pub fn trim_str(s: &str) -> (r: String)
    ensures
        r@ == trim_spec(s@),
{
    let v = string_to_chars(s);
    let t = trim_chars(v);
    chars_to_string(&t)
}

/// Whether `p` is a prefix of `s`.
pub open spec fn has_prefix(s: Seq<char>, p: Seq<char>) -> bool {
    s.len() >= p.len() && s.take(p.len() as int) == p
}

/// Check a prefix.
pub fn starts_with_chars(v: &Vec<char>, p: &Vec<char>) -> (r: bool)
    ensures
        r == has_prefix(v@, p@),
{
    if v.len() < p.len() {
        proof {
            assert(!has_prefix(v@, p@));
        }
        return false;
    }
    let n = p.len();
    let mut i: usize = 0;
    while i < n
        invariant
            i <= n,
            n == p.len(),
            n <= v.len(),
            forall|j: int| 0 <= j < i ==> v@[j] == p@[j],
        decreases n - i,
    {
        if v[i] != p[i] {
            proof {
                assert(v@.take(n as int)[i as int] == v@[i as int]);
            }
            return false;
        }
        i = i + 1;
    }
    proof {
        assert(v@.take(n as int) =~= p@);
    }
    true
}

/// Strip `prefix` from the start of `s` repeatedly, as many whole
/// copies as stand there. An empty prefix strips nothing.
pub open spec fn trim_start_matches_spec(s: Seq<char>, p: Seq<char>) -> Seq<char>
    decreases s.len(),
{
    if p.len() > 0 && has_prefix(s, p) {
        trim_start_matches_spec(s.skip(p.len() as int), p)
    } else {
        s
    }
}

/// Remove all leading repetitions of `prefix` from `s`.
pub fn trim_start_matches_filter(s: &str, prefix: &str) -> (r: String)
    ensures
        r@ == trim_start_matches_spec(s@, prefix@),
{
    let v = string_to_chars(s);
    let p = string_to_chars(prefix);
    let t = trim_matches_rec(v, &p);
    chars_to_string(&t)
}

fn trim_matches_rec(v: Vec<char>, p: &Vec<char>) -> (r: Vec<char>)
    ensures
        r@ == trim_start_matches_spec(v@, p@),
    decreases v.len(),
{
    if p.len() > 0 && starts_with_chars(&v, p) {
        let mut v2 = v;
        let ghost before = v2@;
        let rest = v2.split_off(p.len());
        proof {
            assert(rest@ =~= before.skip(p@.len() as int));
        }
        return trim_matches_rec(rest, p);
    }
    v
}

} // verus!
