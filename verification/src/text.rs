//! Text helpers: UTF-8 decoding of fixed-width names, string comparison,
//! ASCII case mapping and regular-expression matching.

use vstd::prelude::*;
use vstd::utf8::*;
use vstd::string::StringSliceAdditionalSpecFns;

verus! {

broadcast use vstd::utf8::encode_utf8_decode_utf8;

/// `std::str::from_utf8`: succeeds exactly on valid UTF-8 input and then
/// yields the decoded characters (the `Utf8Error` is dropped).
#[verifier::external_body]
pub(crate) fn str_from_utf8(bytes: &[u8]) -> (r: Option<&str>)
    ensures
        r is Some <==> valid_utf8(bytes@),
        r matches Some(s) ==> s@ == decode_utf8(bytes@),
{
    std::str::from_utf8(bytes).ok()
}

/// Upper-cases one character the way `char::to_ascii_uppercase` does.
pub open spec fn ascii_upper(c: char) -> char {
    if 'a' <= c && c <= 'z' {
        ((c as u32) - 32) as char
    } else {
        c
    }
}

/// Lower-cases one byte the way `u8::to_ascii_lowercase` does.
pub open spec fn ascii_lower_byte(b: u8) -> u8 {
    if 0x41 <= b && b <= 0x5a {
        (b + 32) as u8
    } else {
        b
    }
}

/// `str::to_ascii_uppercase`: maps `a`..=`z` to `A`..=`Z` and keeps every
/// other character.
#[verifier::external_body]
pub(crate) fn str_to_ascii_uppercase(s: &str) -> (r: String)
    ensures
        r@ == s@.map_values(|c: char| ascii_upper(c)),
{
    s.to_ascii_uppercase()
}

/// Two strings are equal exactly when their UTF-8 encodings are.
pub proof fn lemma_str_eq_bytes(a: &str, b: &str)
    ensures
        (a@ == b@) <==> (a.spec_bytes() == b.spec_bytes()),
{
    if a.spec_bytes() == b.spec_bytes() {
        assert(decode_utf8(encode_utf8(a@)) == a@);
        assert(decode_utf8(encode_utf8(b@)) == b@);
    }
}

/// Compares two strings character for character.
pub fn str_eq(a: &str, b: &str) -> (r: bool)
    ensures
        r == (a@ == b@),
{
    proof {
        lemma_str_eq_bytes(a, b);
    }
    let x = a.as_bytes();
    let y = b.as_bytes();
    if x.len() != y.len() {
        return false;
    }
    let mut i: usize = 0;
    while i < x.len()
        invariant
            x.len() == y.len(),
            x@ == a.spec_bytes(),
            y@ == b.spec_bytes(),
            0 <= i <= x.len(),
            forall|k: int| 0 <= k < i ==> x@[k] == y@[k],
        decreases x.len() - i,
    {
        if x[i] != y[i] {
            return false;
        }
        i += 1;
    }
    assert(x@ =~= y@);
    true
}

/// The UTF-8 encodings of `a` and `b` are equal once ASCII letters are
/// lower-cased.
pub open spec fn eq_ignore_case(a: Seq<char>, b: Seq<char>) -> bool {
    let x = encode_utf8(a);
    let y = encode_utf8(b);
    &&& x.len() == y.len()
    &&& forall|k: int| 0 <= k < x.len() ==> ascii_lower_byte(#[trigger] x[k]) == ascii_lower_byte(y[k])
}

/// Compares two strings byte for byte, ignoring ASCII letter case, as
/// `str::eq_ignore_ascii_case` does.
pub fn eq_ignore_ascii_case(a: &str, b: &str) -> (r: bool)
    ensures
        r == eq_ignore_case(a@, b@),
{
    let x = a.as_bytes();
    let y = b.as_bytes();
    if x.len() != y.len() {
        return false;
    }
    let mut i: usize = 0;
    while i < x.len()
        invariant
            x.len() == y.len(),
            x@ == a.spec_bytes(),
            y@ == b.spec_bytes(),
            0 <= i <= x.len(),
            forall|k: int| 0 <= k < i ==> ascii_lower_byte(#[trigger] x@[k]) == ascii_lower_byte(y@[k]),
        decreases x.len() - i,
    {
        let p = x[i];
        let q = y[i];
        let lp = if 0x41 <= p && p <= 0x5a { p + 32 } else { p };
        let lq = if 0x41 <= q && q <= 0x5a { q + 32 } else { q };
        if lp != lq {
            return false;
        }
        i += 1;
    }
    true
}

/// What `regex::Regex::new(pattern)` followed by `is_match(text)` yields:
/// `None` when the pattern does not compile, else whether it matches.
pub uninterp spec fn regex_search(pattern: Seq<char>, text: Seq<char>) -> Option<bool>;

/// The map-marker pattern `^(E[1-4]M[1-9]|MAP[0-3][0-9])$`.
pub open spec fn marker_pattern() -> Seq<char> {
    seq!['^', '(', 'E', '[', '1', '-', '4', ']', 'M', '[', '1', '-', '9', ']', '|', 'M', 'A', 'P',
        '[', '0', '-', '3', ']', '[', '0', '-', '9', ']', ')', '$']
}

/// The texts that the map-marker pattern matches: `E1M1`..`E4M9` and
/// `MAP00`..`MAP39`, nothing before or after.
pub open spec fn is_map_marker(t: Seq<char>) -> bool {
    ||| (t.len() == 4 && t[0] == 'E' && '1' <= t[1] && t[1] <= '4' && t[2] == 'M' && '1' <= t[3]
        && t[3] <= '9')
    ||| (t.len() == 5 && t[0] == 'M' && t[1] == 'A' && t[2] == 'P' && '0' <= t[3] && t[3] <= '3'
        && '0' <= t[4] && t[4] <= '9')
}

/// `regex::Regex::new(pattern)` then `Regex::is_match(text)`.  The result is
/// named by `regex_search`; for the map-marker pattern, which compiles, the
/// anchors `^`/`$` make the match cover the whole text, so it is stated.
#[verifier::external_body]
pub(crate) fn regex_is_match(pattern: &str, text: &str) -> (r: Option<bool>)
    ensures
        r == regex_search(pattern@, text@),
        pattern@ == marker_pattern() ==> r == Some(is_map_marker(text@)),
{
    match regex::Regex::new(pattern) {
        Ok(re) => Some(re.is_match(text)),
        Err(_) => None,
    }
}

/// A character with a meaning in regular-expression syntax, as
/// `regex_syntax::is_meta_character` lists them.
pub open spec fn is_regex_meta(c: char) -> bool {
    c == '\\' || c == '.' || c == '+' || c == '*' || c == '?' || c == '(' || c == ')' || c == '|' || c == '['
        || c == ']' || c == '{' || c == '}' || c == '^' || c == '$' || c == '#' || c == '&' || c == '-' || c == '~'
}

/// `text` with a backslash put before every meta character.
pub open spec fn regex_escaped(text: Seq<char>) -> Seq<char>
    decreases text.len(),
{
    if text.len() == 0 {
        seq![]
    } else {
        let c = text.last();
        regex_escaped(text.drop_last()) + if is_regex_meta(c) {
            seq!['\\', c]
        } else {
            seq![c]
        }
    }
}

/// `regex::escape`: `text` with every regular-expression meta character
/// preceded by a backslash (`regex_syntax::escape_into` walks the
/// characters and pushes a backslash before each one that `is_meta_character`
/// accepts).
#[verifier::external_body]
pub(crate) fn regex_escape(text: &str) -> (r: String)
    ensures
        r@ == regex_escaped(text@),
{
    regex::escape(text)
}

/// What `regex::Regex::new(pattern)` then `captures(text)` yields for the
/// group named `group`: `None` when the pattern does not compile, else the
/// group's text in the first match, if there is a match and the group took
/// part in it.
pub uninterp spec fn regex_named_group(pattern: Seq<char>, text: Seq<char>, group: Seq<char>) -> Option<Option<Seq<char>>>;

/// `regex::Regex::new(pattern)`, `Regex::captures(text)` and
/// `Captures::name(group)`.  The result is named by `regex_named_group`.
#[verifier::external_body]
pub(crate) fn regex_capture_named(pattern: &str, text: &str, group: &str) -> (r: Option<Option<String>>)
    ensures
        match r {
            None => regex_named_group(pattern@, text@, group@) is None,
            Some(None) => regex_named_group(pattern@, text@, group@) == Some(None::<Seq<char>>),
            Some(Some(s)) => regex_named_group(pattern@, text@, group@) == Some(Some(s@)),
        },
{
    match regex::Regex::new(pattern) {
        Ok(re) => match re.captures(text) {
            Some(c) => match c.name(group) {
                Some(m) => Some(Some(m.as_str().to_string())),
                None => Some(None),
            },
            None => Some(None),
        },
        Err(_) => None,
    }
}

/// What `regex::Regex::new(pattern)` then `captures_iter(text)` yields for
/// group number `group`: `None` when the pattern does not compile, else one
/// entry per successive non-overlapping match, the group's text when it
/// took part in that match.
pub uninterp spec fn regex_group_matches(pattern: Seq<char>, text: Seq<char>, group: nat) -> Option<Seq<Option<Seq<char>>>>;

/// The text of each entry, if any.
pub open spec fn opt_texts(v: Seq<Option<String>>) -> Seq<Option<Seq<char>>> {
    v.map_values(|o: Option<String>| match o {
        Some(s) => Some(s@),
        None => None,
    })
}

/// `regex::Regex::new(pattern)`, `Regex::captures_iter(text)` and
/// `Captures::get(group)` of each match.  The result is named by
/// `regex_group_matches`.
#[verifier::external_body]
pub(crate) fn regex_capture_all(pattern: &str, text: &str, group: usize) -> (r: Option<Vec<Option<String>>>)
    ensures
        match r {
            None => regex_group_matches(pattern@, text@, group as nat) is None,
            Some(v) => regex_group_matches(pattern@, text@, group as nat) == Some(opt_texts(v@)),
        },
{
    match regex::Regex::new(pattern) {
        Ok(re) => Some(re.captures_iter(text).map(|c| c.get(group).map(|m| m.as_str().to_string())).collect()),
        Err(_) => None,
    }
}

} // verus!
