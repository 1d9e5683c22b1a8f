//! Text processing over character sequences: trimming, splitting,
//! prefix stripping, line breaking and decimal integers, each stated the
//! way `str`'s methods of the same purpose behave.

use vstd::prelude::*;

verus! {

/*──────────────────────────── conversions ──────────────────────────*/

/// The characters of `s`, in order.
pub fn to_chars(s: &str) -> (v: Vec<char>)
    ensures
        v@ == s@,
{
    let mut v: Vec<char> = Vec::new();
    for c in it: s.chars()
        invariant
            v@ == it.seq().take(it.index() as int),
            it.seq() == s@,
    {
        v.push(c);
        assert(v@ =~= it.seq().take(it.index() + 1));
    }
    assert(v@ =~= s@);
    v
}

/// `String::from_iter` over characters: the string of exactly `v`.
#[verifier::external_body]
pub(crate) fn string_from_chars(v: &[char]) -> (s: String)
    ensures
        s@ == v@,
{
    v.iter().collect()
}

/// `v[a..b]` as a new vector.
pub fn sub_vec(v: &[char], a: usize, b: usize) -> (r: Vec<char>)
    requires
        a <= b <= v@.len(),
    ensures
        r@ == v@.subrange(a as int, b as int),
{
    let mut r: Vec<char> = Vec::new();
    let mut i = a;
    while i < b
        invariant
            a <= i <= b,
            b <= v@.len(),
            r@ == v@.subrange(a as int, i as int),
        decreases b - i,
    {
        r.push(v[i]);
        i += 1;
        assert(r@ =~= v@.subrange(a as int, i as int));
    }
    r
}

/*──────────────────────────── trimming ─────────────────────────────*/

/// The sets of characters trimmed off.
#[derive(Clone, Copy, Debug, PartialEq, Eq, Structural)]
pub enum CharSet {
    /// Unicode `White_Space`, as `char::is_whitespace` and `str::trim`.
    Whitespace,
    /// `{` and `}`.
    Braces,
    /// `{`, `}` and `,`.
    BracesComma,
    /// The padding of fixed-width names: NUL and space.
    Padding,
}

/// Unicode `White_Space`: tab to carriage return, space, NEL, NBSP, ogham
/// space mark, the spaces U+2000 to U+200A, the line and paragraph
/// separators, narrow NBSP, medium mathematical space, ideographic space.
pub open spec fn is_ws(c: char) -> bool {
    let u = c as u32;
    ||| 0x09 <= u <= 0x0D
    ||| u == 0x20
    ||| u == 0x85
    ||| u == 0xA0
    ||| u == 0x1680
    ||| 0x2000 <= u <= 0x200A
    ||| u == 0x2028
    ||| u == 0x2029
    ||| u == 0x202F
    ||| u == 0x205F
    ||| u == 0x3000
}

/// `c` belongs to `set`.
pub open spec fn in_set(set: CharSet, c: char) -> bool {
    match set {
        CharSet::Whitespace => is_ws(c),
        CharSet::Braces => c == '{' || c == '}',
        CharSet::BracesComma => c == '{' || c == '}' || c == ',',
        CharSet::Padding => c == '\0' || c == ' ',
    }
}

/// Whether `c` is Unicode white space.
pub fn is_whitespace(c: char) -> (b: bool)
    ensures
        b == is_ws(c),
{
    let u = c as u32;
    (0x09 <= u && u <= 0x0D) || u == 0x20 || u == 0x85 || u == 0xA0 || u == 0x1680 || (0x2000 <= u && u <= 0x200A)
        || u == 0x2028 || u == 0x2029 || u == 0x202F || u == 0x205F || u == 0x3000
}

/// Whether `c` belongs to `set`.
pub fn in_set_exec(set: CharSet, c: char) -> (b: bool)
    ensures
        b == in_set(set, c),
{
    match set {
        CharSet::Whitespace => is_whitespace(c),
        CharSet::Braces => c == '{' || c == '}',
        CharSet::BracesComma => c == '{' || c == '}' || c == ',',
        CharSet::Padding => c == '\0' || c == ' ',
    }
}

/// Number of leading characters of `s` in `set`.
pub open spec fn lead_len(s: Seq<char>, set: CharSet) -> int
    decreases s.len(),
{
    if s.len() > 0 && in_set(set, s[0]) {
        1 + lead_len(s.drop_first(), set)
    } else {
        0
    }
}

/// Number of trailing characters of `s` in `set`.
pub open spec fn trail_len(s: Seq<char>, set: CharSet) -> int
    decreases s.len(),
{
    if s.len() > 0 && in_set(set, s.last()) {
        1 + trail_len(s.drop_last(), set)
    } else {
        0
    }
}

/// `s` without its leading and trailing characters in `set`, as
/// `str::trim_matches` leaves it (`str::trim` for white space).
pub open spec fn trim_set(s: Seq<char>, set: CharSet) -> Seq<char> {
    let t = s.skip(lead_len(s, set));
    t.take(t.len() - trail_len(t, set))
}

proof fn lemma_lead_len(s: Seq<char>, set: CharSet, i: int)
    requires
        0 <= i <= s.len(),
        forall|k: int| 0 <= k < i ==> in_set(set, #[trigger] s[k]),
        i == s.len() || !in_set(set, s[i]),
    ensures
        lead_len(s, set) == i,
    decreases i,
{
    if i > 0 {
        assert(in_set(set, s[0]));
        lemma_lead_len(s.drop_first(), set, i - 1);
    }
}

proof fn lemma_trail_len(s: Seq<char>, set: CharSet, j: int)
    requires
        0 <= j <= s.len(),
        forall|k: int| j <= k < s.len() ==> in_set(set, #[trigger] s[k]),
        j == 0 || !in_set(set, s[j - 1]),
    ensures
        trail_len(s, set) == s.len() - j,
    decreases s.len() - j,
{
    if j < s.len() {
        assert(in_set(set, s.last()));
        lemma_trail_len(s.drop_last(), set, j);
    }
}

/// Trim the characters of `set` off both ends of `v`.
pub fn trim(v: &[char], set: CharSet) -> (r: Vec<char>)
    ensures
        r@ == trim_set(v@, set),
{
    let n = v.len();
    let mut i: usize = 0;
    while i < n && in_set_exec(set, v[i])
        invariant
            n == v@.len(),
            i <= n,
            forall|k: int| 0 <= k < i ==> in_set(set, #[trigger] v@[k]),
        decreases n - i,
    {
        i += 1;
    }
    let mut j: usize = n;
    while j > i && in_set_exec(set, v[j - 1])
        invariant
            n == v@.len(),
            i <= j <= n,
            forall|k: int| j <= k < n ==> in_set(set, #[trigger] v@[k]),
        decreases j,
    {
        j -= 1;
    }
    proof {
        lemma_lead_len(v@, set, i as int);
        let t = v@.skip(i as int);
        assert forall|k: int| j - i <= k < t.len() implies in_set(set, #[trigger] t[k]) by {
            assert(t[k] == v@[k + i]);
        }
        lemma_trail_len(t, set, j - i);
        assert(trim_set(v@, set) =~= v@.subrange(i as int, j as int));
    }
    sub_vec(v, i, j)
}

/*──────────────────────────── splitting ────────────────────────────*/

/// Position of the first `c` in `s`; `s.len()` when there is none.
pub open spec fn first_index(s: Seq<char>, c: char) -> int
    decreases s.len(),
{
    if s.len() == 0 || s[0] == c {
        0
    } else {
        1 + first_index(s.drop_first(), c)
    }
}

pub proof fn lemma_first_index_bounds(s: Seq<char>, c: char)
    ensures
        0 <= first_index(s, c) <= s.len(),
    decreases s.len(),
{
    if s.len() > 0 && s[0] != c {
        lemma_first_index_bounds(s.drop_first(), c);
    }
}

/// The pieces of `s` between occurrences of `c`, as `str::split(c)`
/// yields them (an empty piece where two separators meet or at an end).
pub open spec fn split_on(s: Seq<char>, c: char) -> Seq<Seq<char>>
    decreases s.len(),
{
    let i = first_index(s, c);
    if i >= s.len() {
        seq![s]
    } else {
        proof {
            lemma_first_index_bounds(s, c);
        }
        seq![s.take(i)] + split_on(s.skip(i + 1), c)
    }
}

proof fn lemma_first_index(s: Seq<char>, c: char, i: int)
    requires
        0 <= i <= s.len(),
        forall|k: int| 0 <= k < i ==> #[trigger] s[k] != c,
        i == s.len() || s[i] == c,
    ensures
        first_index(s, c) == i,
    decreases i,
{
    if i > 0 {
        lemma_first_index(s.drop_first(), c, i - 1);
    }
}

/// The views of a vector of character vectors.
pub open spec fn views(v: Seq<Vec<char>>) -> Seq<Seq<char>> {
    v.map_values(|p: Vec<char>| p@)
}

/// Split `v` at every `c`.
pub fn split(v: &[char], c: char) -> (r: Vec<Vec<char>>)
    ensures
        views(r@) == split_on(v@, c),
{
    let n = v.len();
    let mut pieces: Vec<Vec<char>> = Vec::new();
    let mut start: usize = 0;
    assert(v@.skip(0) =~= v@);
    assert(views(pieces@) =~= Seq::<Seq<char>>::empty());
    assert(views(pieces@) + split_on(v@.skip(0), c) =~= split_on(v@, c));
    loop
        invariant
            n == v@.len(),
            start <= n,
            views(pieces@) + split_on(v@.skip(start as int), c) == split_on(v@, c),
        decreases n - start,
    {
        let mut i = start;
        while i < n && v[i] != c
            invariant
                n == v@.len(),
                start <= i <= n,
                forall|k: int| start <= k < i ==> #[trigger] v@[k] != c,
            decreases n - i,
        {
            i += 1;
        }
        let piece = sub_vec(v, start, i);
        let ghost rest = v@.skip(start as int);
        proof {
            assert forall|k: int| 0 <= k < i - start implies #[trigger] rest[k] != c by {
                assert(rest[k] == v@[start + k]);
            }
            lemma_first_index(rest, c, i - start);
        }
        let ghost old_pieces = views(pieces@);
        pieces.push(piece);
        assert(views(pieces@) =~= old_pieces.push(v@.subrange(start as int, i as int)));
        if i == n {
            assert(rest.take(i - start) =~= v@.subrange(start as int, i as int));
            assert(split_on(rest, c) == seq![rest]);
            assert(rest =~= v@.subrange(start as int, i as int));
            assert(views(pieces@) =~= old_pieces + split_on(rest, c));
            return pieces;
        }
        assert(rest.take(i - start) =~= v@.subrange(start as int, i as int));
        assert(rest.skip(i - start + 1) =~= v@.skip(i + 1));
        assert(views(pieces@) + split_on(v@.skip(i + 1), c) =~= old_pieces + split_on(rest, c));
        start = i + 1;
    }
}

/*──────────────────────────── prefixes ─────────────────────────────*/

/// `s` starts with `pre`.
pub open spec fn has_prefix(s: Seq<char>, pre: Seq<char>) -> bool {
    pre.len() <= s.len() && s.take(pre.len() as int) == pre
}

/// `s` with every leading copy of a non-empty `pre` removed, as
/// `str::trim_start_matches(pre)`; `s` itself when `pre` is empty.
pub open spec fn strip_all(s: Seq<char>, pre: Seq<char>) -> Seq<char>
    decreases s.len(),
{
    if pre.len() > 0 && has_prefix(s, pre) {
        strip_all(s.skip(pre.len() as int), pre)
    } else {
        s
    }
}

/// `v` has `pre` at position `at`.
fn prefix_at(v: &[char], at: usize, pre: &[char]) -> (b: bool)
    requires
        at <= v@.len(),
    ensures
        b == has_prefix(v@.skip(at as int), pre@),
{
    let n = v.len();
    let m = pre.len();
    if m > n - at {
        return false;
    }
    let mut k: usize = 0;
    while k < m
        invariant
            n == v@.len(),
            m == pre@.len(),
            at + m <= n,
            k <= m,
            forall|q: int| 0 <= q < k ==> v@[at + q] == pre@[q],
        decreases m - k,
    {
        if v[at + k] != pre[k] {
            assert(v@.skip(at as int).take(m as int)[k as int] != pre@[k as int]);
            return false;
        }
        k += 1;
    }
    assert(v@.skip(at as int).take(m as int) =~= pre@);
    true
}

/// Remove every leading copy of `pre` from `v`.
pub fn strip_prefixes(v: &[char], pre: &[char]) -> (r: Vec<char>)
    ensures
        r@ == strip_all(v@, pre@),
{
    let n = v.len();
    if pre.len() == 0 {
        return sub_vec(v, 0, n);
    }
    let mut at: usize = 0;
    assert(v@.skip(0) =~= v@);
    while prefix_at(v, at, pre)
        invariant
            n == v@.len(),
            pre@.len() > 0,
            at <= n,
            strip_all(v@.skip(at as int), pre@) == strip_all(v@, pre@),
        decreases n - at,
    {
        assert(v@.skip(at as int).skip(pre@.len() as int) =~= v@.skip(at + pre@.len()));
        at = at + pre.len();
    }
    assert(v@.skip(at as int) =~= v@.subrange(at as int, n as int));
    sub_vec(v, at, n)
}

/// Position of the first `pat` in `s` (a non-empty pattern); `s.len()`
/// when there is none.
pub open spec fn find_sub(s: Seq<char>, pat: Seq<char>) -> int
    decreases s.len(),
{
    if s.len() < pat.len() || pat.len() == 0 {
        s.len() as int
    } else if has_prefix(s, pat) {
        0
    } else {
        1 + find_sub(s.drop_first(), pat)
    }
}

/// The first piece of `str::split(pat)`: `s` up to the first `pat`.
pub open spec fn piece_before(s: Seq<char>, pat: Seq<char>) -> Seq<char> {
    s.take(find_sub(s, pat))
}

/// The second piece of `str::split(pat)`: what lies between the first and
/// the second `pat` (or the end); `None` when `pat` does not occur.
pub open spec fn piece_after(s: Seq<char>, pat: Seq<char>) -> Option<Seq<char>> {
    let i = find_sub(s, pat);
    if i >= s.len() {
        None
    } else {
        let rest = s.skip(i + pat.len());
        Some(rest.take(find_sub(rest, pat)))
    }
}

proof fn lemma_find_sub_bound(s: Seq<char>, pat: Seq<char>)
    ensures
        0 <= find_sub(s, pat) <= s.len(),
        pat.len() > 0 && find_sub(s, pat) < s.len() ==> find_sub(s, pat) + pat.len() <= s.len(),
    decreases s.len(),
{
    if s.len() >= pat.len() && pat.len() > 0 && !has_prefix(s, pat) {
        lemma_find_sub_bound(s.drop_first(), pat);
    }
}

/// Position of the first `pat` at or after `from` in `v` (`v.len()` when
/// there is none).
fn find_from(v: &[char], from: usize, pat: &[char]) -> (r: usize)
    requires
        from <= v@.len(),
        pat@.len() > 0,
    ensures
        r == from + find_sub(v@.skip(from as int), pat@),
{
    let n = v.len();
    let mut i = from;
    while i < n && !prefix_at(v, i, pat)
        invariant
            n == v@.len(),
            from <= i <= n,
            pat@.len() > 0,
            find_sub(v@.skip(from as int), pat@) == (i - from) + find_sub(v@.skip(i as int), pat@),
        decreases n - i,
    {
        proof {
            let t = v@.skip(i as int);
            if t.len() >= pat@.len() {
                assert(t.drop_first() =~= v@.skip(i + 1));
            } else {
                assert(find_sub(t, pat@) == t.len());
                assert(find_sub(v@.skip(i + 1), pat@) == t.len() - 1) by {
                    lemma_find_sub_bound(v@.skip(i + 1), pat@);
                }
            }
        }
        i += 1;
    }
    if i == n {
        assert(v@.skip(i as int).len() == 0);
        return n;
    }
    i
}

/// `str::split(pat).next()`: `v` up to the first `pat`.
pub fn first_piece(v: &[char], pat: &[char]) -> (r: Vec<char>)
    requires
        pat@.len() > 0,
    ensures
        r@ == piece_before(v@, pat@),
{
    let i = find_from(v, 0, pat);
    assert(v@.skip(0) =~= v@);
    proof {
        lemma_find_sub_bound(v@, pat@);
    }
    sub_vec(v, 0, i)
}

/// `str::split(pat).nth(1)`: the text between the first and second `pat`.
pub fn second_piece(v: &[char], pat: &[char]) -> (r: Option<Vec<char>>)
    requires
        pat@.len() > 0,
    ensures
        match r {
            Some(p) => piece_after(v@, pat@) == Some(p@),
            None => piece_after(v@, pat@) is None,
        },
{
    let n = v.len();
    let i = find_from(v, 0, pat);
    assert(v@.skip(0) =~= v@);
    proof {
        lemma_find_sub_bound(v@, pat@);
    }
    if i >= n {
        return None;
    }
    let start = i + pat.len();
    let j = find_from(v, start, pat);
    proof {
        lemma_find_sub_bound(v@.skip(start as int), pat@);
    }
    let r = sub_vec(v, start, j);
    assert(r@ =~= v@.skip(start as int).take(j - start));
    Some(r)
}

/// `str::split_whitespace().next()`: the first run of non-white-space
/// characters, if any.
pub open spec fn first_word(s: Seq<char>) -> Option<Seq<char>> {
    let t = s.skip(lead_len(s, CharSet::Whitespace));
    if t.len() == 0 {
        None
    } else {
        Some(t.take(word_len(t)))
    }
}

/// Number of leading characters of `s` that are not white space.
pub open spec fn word_len(s: Seq<char>) -> int
    decreases s.len(),
{
    if s.len() > 0 && !is_ws(s[0]) {
        1 + word_len(s.drop_first())
    } else {
        0
    }
}

proof fn lemma_word_len(s: Seq<char>, i: int)
    requires
        0 <= i <= s.len(),
        forall|k: int| 0 <= k < i ==> !is_ws(#[trigger] s[k]),
        i == s.len() || is_ws(s[i]),
    ensures
        word_len(s) == i,
    decreases i,
{
    if i > 0 {
        lemma_word_len(s.drop_first(), i - 1);
    }
}

/// The first white-space-separated word of `v`.
pub fn first_word_of(v: &[char]) -> (r: Option<Vec<char>>)
    ensures
        match r {
            Some(w) => first_word(v@) == Some(w@),
            None => first_word(v@) is None,
        },
{
    let n = v.len();
    let mut i: usize = 0;
    while i < n && is_whitespace(v[i])
        invariant
            n == v@.len(),
            i <= n,
            forall|k: int| 0 <= k < i ==> in_set(CharSet::Whitespace, #[trigger] v@[k]),
        decreases n - i,
    {
        i += 1;
    }
    proof {
        lemma_lead_len(v@, CharSet::Whitespace, i as int);
    }
    if i == n {
        return None;
    }
    let mut j = i;
    while j < n && !is_whitespace(v[j])
        invariant
            n == v@.len(),
            i <= j <= n,
            forall|k: int| i <= k < j ==> !is_ws(#[trigger] v@[k]),
        decreases n - j,
    {
        j += 1;
    }
    proof {
        let t = v@.skip(i as int);
        assert forall|k: int| 0 <= k < j - i implies !is_ws(#[trigger] t[k]) by {
            assert(t[k] == v@[i + k]);
        }
        lemma_word_len(t, j - i);
        assert(t.take(j - i) =~= v@.subrange(i as int, j as int));
    }
    Some(sub_vec(v, i, j))
}

/*──────────────────────────── lines ────────────────────────────────*/

/// A line without the carriage return that ended it.
pub open spec fn strip_cr(l: Seq<char>) -> Seq<char> {
    if l.len() > 0 && l.last() == '\r' {
        l.drop_last()
    } else {
        l
    }
}

/// The lines of `s`, as `str::lines` yields them: split at `\n`, a `\r`
/// just before it dropped, no empty line after a final `\n`.
pub open spec fn lines_of(s: Seq<char>) -> Seq<Seq<char>>
    decreases s.len(),
{
    if s.len() == 0 {
        seq![]
    } else {
        let i = first_index(s, '\n');
        if i >= s.len() {
            seq![s]
        } else {
            proof {
                lemma_first_index_bounds(s, '\n');
            }
            seq![strip_cr(s.take(i))] + lines_of(s.skip(i + 1))
        }
    }
}

/// Break `v` into lines.
pub fn lines(v: &[char]) -> (r: Vec<Vec<char>>)
    ensures
        views(r@) == lines_of(v@),
{
    let n = v.len();
    let mut out: Vec<Vec<char>> = Vec::new();
    let mut start: usize = 0;
    assert(v@.skip(0) =~= v@);
    assert(views(out@) + lines_of(v@.skip(0)) =~= lines_of(v@));
    while start < n
        invariant
            n == v@.len(),
            start <= n,
            views(out@) + lines_of(v@.skip(start as int)) == lines_of(v@),
        decreases n - start,
    {
        let mut i = start;
        while i < n && v[i] != '\n'
            invariant
                n == v@.len(),
                start <= i <= n,
                forall|k: int| start <= k < i ==> #[trigger] v@[k] != '\n',
            decreases n - i,
        {
            i += 1;
        }
        let ghost rest = v@.skip(start as int);
        proof {
            assert forall|k: int| 0 <= k < i - start implies #[trigger] rest[k] != '\n' by {
                assert(rest[k] == v@[start + k]);
            }
            lemma_first_index(rest, '\n', i - start);
        }
        let mut end = i;
        if i < n && end > start && v[end - 1] == '\r' {
            end = end - 1;
        }
        let line = sub_vec(v, start, end);
        let ghost old_out = views(out@);
        out.push(line);
        assert(views(out@) =~= old_out.push(v@.subrange(start as int, end as int)));
        if i == n {
            assert(rest =~= v@.subrange(start as int, end as int));
            assert(views(out@) =~= old_out + lines_of(rest));
            start = n;
            assert(v@.skip(start as int) =~= Seq::<char>::empty());
        } else {
            assert(strip_cr(rest.take(i - start)) =~= v@.subrange(start as int, end as int));
            assert(rest.skip(i - start + 1) =~= v@.skip(i + 1));
            assert(views(out@) + lines_of(v@.skip(i + 1)) =~= old_out + lines_of(rest));
            start = i + 1;
        }
    }
    assert(v@.skip(start as int) =~= Seq::<char>::empty());
    assert(views(out@) =~= lines_of(v@));
    out
}

/// The pieces joined with `sep` between neighbours, as `[&str]::join`.
pub open spec fn join(pieces: Seq<Seq<char>>, sep: Seq<char>) -> Seq<char>
    decreases pieces.len(),
{
    if pieces.len() == 0 {
        seq![]
    } else if pieces.len() == 1 {
        pieces[0]
    } else {
        join(pieces.drop_last(), sep) + sep + pieces.last()
    }
}

/// Join `pieces` with `sep` between neighbours.
pub fn join_with(pieces: &Vec<Vec<char>>, sep: &[char]) -> (r: Vec<char>)
    ensures
        r@ == join(views(pieces@), sep@),
{
    let mut out: Vec<char> = Vec::new();
    let mut k: usize = 0;
    while k < pieces.len()
        invariant
            k <= pieces@.len(),
            out@ == join(views(pieces@).take(k as int), sep@),
        decreases pieces@.len() - k,
    {
        let ghost before = out@;
        if k > 0 {
            let mut q: usize = 0;
            while q < sep.len()
                invariant
                    q <= sep@.len(),
                    out@ == before + sep@.take(q as int),
                decreases sep@.len() - q,
            {
                out.push(sep[q]);
                q += 1;
                assert(out@ =~= before + sep@.take(q as int));
            }
        }
        let ghost mid = out@;
        let p = &pieces[k];
        let mut q: usize = 0;
        while q < p.len()
            invariant
                q <= p@.len(),
                out@ == mid + p@.take(q as int),
            decreases p@.len() - q,
        {
            out.push(p[q]);
            q += 1;
            assert(out@ =~= mid + p@.take(q as int));
        }
        proof {
            let w = views(pieces@).take(k + 1);
            assert(w.drop_last() =~= views(pieces@).take(k as int));
            assert(w.last() == p@);
            if k == 0 {
                assert(out@ =~= p@);
            } else {
                assert(out@ =~= before + sep@ + p@);
            }
        }
        k += 1;
    }
    assert(views(pieces@).take(pieces@.len() as int) =~= views(pieces@));
    out
}

/*──────────────────────────── integers ─────────────────────────────*/

/// An ASCII decimal digit.
pub open spec fn is_digit(c: char) -> bool {
    '0' <= c && c <= '9'
}

/// Value of a run of decimal digits.
pub open spec fn digits_value(s: Seq<char>) -> int
    decreases s.len(),
{
    if s.len() == 0 {
        0
    } else {
        digits_value(s.drop_last()) * 10 + (s.last() as int - '0' as int)
    }
}

/// Every character of `d` is a decimal digit.
pub open spec fn all_digits(d: Seq<char>) -> bool {
    forall|k: int| 0 <= k < d.len() ==> is_digit(#[trigger] d[k])
}

/// The digits part of `s` that `str::parse` reads: `s` without a leading
/// `+`, or without a leading `-` when `signed`.
pub open spec fn digits_part(s: Seq<char>, signed: bool) -> Seq<char> {
    if (signed && s.len() > 0 && s[0] == '-') || (s.len() > 0 && s[0] == '+') {
        s.drop_first()
    } else {
        s
    }
}

/// The integer `str::parse` reads from `s`: an optional `+` (or `-` when
/// `signed`), then one or more decimal digits; `None` otherwise.
pub open spec fn parse_int(s: Seq<char>, signed: bool) -> Option<int> {
    let d = digits_part(s, signed);
    if d.len() > 0 && all_digits(d) {
        Some(if signed && s.len() > 0 && s[0] == '-' { -digits_value(d) } else { digits_value(d) })
    } else {
        None
    }
}

/// `str::parse::<i32>`: the value when it is well-formed and in range.
pub open spec fn parse_i32(s: Seq<char>) -> Option<i32> {
    match parse_int(s, true) {
        Some(v) => if i32::MIN <= v <= i32::MAX { Some(v as i32) } else { None },
        None => None,
    }
}

/// `str::parse::<u8>`: the value when it is well-formed and in range.
pub open spec fn parse_u8(s: Seq<char>) -> Option<u8> {
    match parse_int(s, false) {
        Some(v) => if 0 <= v <= 255 { Some(v as u8) } else { None },
        None => None,
    }
}

proof fn lemma_digits_grow(d: Seq<char>, k: int)
    requires
        0 <= k <= d.len(),
        forall|q: int| 0 <= q < d.len() ==> is_digit(#[trigger] d[q]),
    ensures
        digits_value(d) >= digits_value(d.take(k)),
        digits_value(d.take(k)) >= 0,
    decreases d.len() - k,
{
    if k < d.len() {
        lemma_digits_grow(d, k + 1);
        assert(d.take(k + 1).drop_last() =~= d.take(k));
    } else {
        assert(d.take(k) =~= d);
        lemma_digits_nonneg(d);
    }
}

proof fn lemma_digits_nonneg(d: Seq<char>)
    requires
        forall|q: int| 0 <= q < d.len() ==> is_digit(#[trigger] d[q]),
    ensures
        digits_value(d) >= 0,
    decreases d.len(),
{
    if d.len() > 0 {
        lemma_digits_nonneg(d.drop_last());
    }
}

/// Read a signed decimal integer (`limit` bounds its magnitude) from
/// `v`: the sign and digits `str::parse` accepts; `None` otherwise or when
/// the magnitude exceeds `limit`.
fn parse_magnitude(v: &[char], signed: bool, limit: i64) -> (r: Option<i64>)
    requires
        0 <= limit <= 0x8000_0000,
    ensures
        match r {
            Some(x) => parse_int(v@, signed) == Some(x as int) && -limit <= x <= limit && (!signed ==> x >= 0),
            None => parse_int(v@, signed) matches Some(x) ==> !(-limit <= x <= limit),
        },
{
    let n = v.len();
    let neg = signed && n > 0 && v[0] == '-';
    let plus = n > 0 && v[0] == '+';
    let start: usize = if neg || plus { 1 } else { 0 };
    let ghost d = if neg || plus { v@.drop_first() } else { v@ };
    assert(d =~= v@.skip(start as int));
    if start >= n {
        return None;
    }
    let mut acc: i64 = 0;
    let mut i = start;
    while i < n
        invariant
            n == v@.len(),
            start <= i <= n,
            d == v@.skip(start as int),
            neg == (signed && v@.len() > 0 && v@[0] == '-'),
            plus == (v@.len() > 0 && v@[0] == '+'),
            d == (if neg || plus { v@.drop_first() } else { v@ }),
            0 <= limit <= 0x8000_0000,
            0 <= acc <= limit,
            forall|q: int| 0 <= q < i - start ==> is_digit(#[trigger] d[q]),
            acc == digits_value(d.take(i - start)),
        decreases n - i,
    {
        let c = v[i];
        if !('0' <= c && c <= '9') {
            assert(!is_digit(d[i - start]));
            assert(digits_part(v@, signed) == d);
            return None;
        }
        let dig = (c as u32 - '0' as u32) as i64;
        acc = acc * 10 + dig;
        proof {
            assert(d.take(i - start + 1).drop_last() =~= d.take(i - start));
        }
        i += 1;
        if acc > limit {
            proof {
                if all_digits(d) {
                    lemma_digits_grow(d, i - start);
                }
                assert(digits_part(v@, signed) == d);
            }
            return None;
        }
    }
    assert(d.take(i - start) =~= d);
    if neg {
        Some(-acc)
    } else {
        Some(acc)
    }
}

/// `str::parse::<i32>`.
pub fn parse_i32_chars(v: &[char]) -> (r: Option<i32>)
    ensures
        r == parse_i32(v@),
{
    match parse_magnitude(v, true, 0x8000_0000) {
        Some(x) => {
            if x <= 0x7FFF_FFFF {
                Some(x as i32)
            } else {
                None
            }
        },
        None => None,
    }
}

/// `str::parse::<u8>`.
pub fn parse_u8_chars(v: &[char]) -> (r: Option<u8>)
    ensures
        r == parse_u8(v@),
{
    match parse_magnitude(v, false, 255) {
        Some(x) => Some(x as u8),
        None => None,
    }
}

/// The character of decimal digit `d`.
pub open spec fn digit_char(d: int) -> char {
    (d + 48) as char
}

/// Decimal digits of `n`, without leading zeros.
pub open spec fn dec_nat(n: nat) -> Seq<char>
    decreases n,
{
    if n < 10 {
        seq![digit_char(n as int)]
    } else {
        dec_nat(n / 10).push(digit_char((n % 10) as int))
    }
}

/// Decimal text of `v`, with a `-` when negative, as `{}` formats it.
pub open spec fn dec_int(v: int) -> Seq<char> {
    if v < 0 {
        seq!['-'] + dec_nat((-v) as nat)
    } else {
        dec_nat(v as nat)
    }
}

/// `s` left-padded with `0` to at least three characters, as `{:03}`.
pub open spec fn zero_pad3(s: Seq<char>) -> Seq<char> {
    if s.len() >= 3 {
        s
    } else {
        Seq::new((3 - s.len()) as nat, |i: int| '0') + s
    }
}

/// Decimal digits of `n`.
pub fn fmt_u64(n: u64) -> (r: Vec<char>)
    ensures
        r@ == dec_nat(n as nat),
    decreases n,
{
    let d = (n % 10) as u8;
    let c = (48 + d) as char;
    assert(c == digit_char((n % 10) as int));
    if n < 10 {
        let mut v: Vec<char> = Vec::new();
        v.push(c);
        assert(v@ =~= seq![c]);
        v
    } else {
        let mut v = fmt_u64(n / 10);
        v.push(c);
        v
    }
}

/// Decimal text of `v`.
pub fn fmt_i64(v: i64) -> (r: Vec<char>)
    requires
        v > i64::MIN,
    ensures
        r@ == dec_int(v as int),
{
    if v < 0 {
        let digits = fmt_u64((-v) as u64);
        let mut out: Vec<char> = Vec::new();
        out.push('-');
        let mut k: usize = 0;
        while k < digits.len()
            invariant
                k <= digits@.len(),
                out@ == seq!['-'] + digits@.take(k as int),
            decreases digits@.len() - k,
        {
            out.push(digits[k]);
            k += 1;
            assert(out@ =~= seq!['-'] + digits@.take(k as int));
        }
        assert(digits@.take(digits@.len() as int) =~= digits@);
        out
    } else {
        fmt_u64(v as u64)
    }
}

/// `s` left-padded with `0` to three characters.
pub fn pad3(s: &Vec<char>) -> (r: Vec<char>)
    ensures
        r@ == zero_pad3(s@),
{
    let mut out: Vec<char> = Vec::new();
    let n = s.len();
    if n < 3 {
        let mut k: usize = 0;
        while k < 3 - n
            invariant
                n < 3,
                k <= 3 - n,
                out@ == Seq::new(k as nat, |i: int| '0'),
            decreases 3 - n - k,
        {
            out.push('0');
            k += 1;
            assert(out@ =~= Seq::new(k as nat, |i: int| '0'));
        }
    }
    let ghost pre = out@;
    let mut k: usize = 0;
    while k < n
        invariant
            n == s@.len(),
            k <= n,
            out@ == pre + s@.take(k as int),
        decreases n - k,
    {
        out.push(s[k]);
        k += 1;
        assert(out@ =~= pre + s@.take(k as int));
    }
    assert(s@.take(n as int) =~= s@);
    if n >= 3 {
        assert(out@ =~= s@);
    }
    out
}

/*──────────────────────────── building text ────────────────────────*/

/// Append the characters of `s` to `out`.
pub fn push_chars(out: &mut Vec<char>, s: &[char])
    ensures
        final(out)@ == old(out)@ + s@,
{
    let ghost before = out@;
    let mut k: usize = 0;
    while k < s.len()
        invariant
            k <= s@.len(),
            out@ == before + s@.take(k as int),
        decreases s@.len() - k,
    {
        out.push(s[k]);
        k += 1;
        assert(out@ =~= before + s@.take(k as int));
    }
    assert(s@.take(s@.len() as int) =~= s@);
}

/// Append the text of `s` to `out`.
pub fn push_str(out: &mut Vec<char>, s: &str)
    ensures
        final(out)@ == old(out)@ + s@,
{
    let v = to_chars(s);
    push_chars(out, &v);
}

/*──────────────────────────── ordering ─────────────────────────────*/

/// `a` sorts strictly before `b`: the first differing character is
/// smaller, or `a` is a proper prefix of `b` (the order of `str`, whose
/// UTF-8 byte order is that of the characters' scalar values).
pub open spec fn text_lt(a: Seq<char>, b: Seq<char>) -> bool
    decreases a.len(),
{
    if a.len() == 0 {
        b.len() > 0
    } else if b.len() == 0 {
        false
    } else if a[0] != b[0] {
        a[0] < b[0]
    } else {
        text_lt(a.drop_first(), b.drop_first())
    }
}

/// Nothing sorts before itself.
pub proof fn lemma_text_lt_irreflexive(a: Seq<char>)
    ensures
        !text_lt(a, a),
    decreases a.len(),
{
    if a.len() > 0 {
        lemma_text_lt_irreflexive(a.drop_first());
    }
}

/// The order is transitive.
pub proof fn lemma_text_lt_transitive(a: Seq<char>, b: Seq<char>, c: Seq<char>)
    requires
        text_lt(a, b),
        text_lt(b, c),
    ensures
        text_lt(a, c),
    decreases a.len(),
{
    if a.len() > 0 && b.len() > 0 && c.len() > 0 && a[0] == b[0] && b[0] == c[0] {
        lemma_text_lt_transitive(a.drop_first(), b.drop_first(), c.drop_first());
    }
}

/// Two different texts are ordered one way or the other.
pub proof fn lemma_text_lt_total(a: Seq<char>, b: Seq<char>)
    requires
        a != b,
    ensures
        text_lt(a, b) || text_lt(b, a),
    decreases a.len(),
{
    if a.len() == 0 {
        assert(b.len() > 0) by {
            if b.len() == 0 {
                assert(a =~= b);
            }
        }
    } else if b.len() > 0 && a[0] == b[0] {
        if a.drop_first() == b.drop_first() {
            assert(a =~= seq![a[0]] + a.drop_first());
            assert(b =~= seq![b[0]] + b.drop_first());
        }
        lemma_text_lt_total(a.drop_first(), b.drop_first());
    }
}

/// Compare two texts: -1, 0 or 1 as `a` sorts before, equals or sorts
/// after `b`.
pub fn compare_text(a: &[char], b: &[char]) -> (r: i8)
    ensures
        r == -1 <==> text_lt(a@, b@),
        r == 0 <==> a@ == b@,
        r == 1 <==> text_lt(b@, a@),
        -1 <= r <= 1,
{
    let n = a.len();
    let m = b.len();
    let mut i: usize = 0;
    assert(a@.skip(0) =~= a@);
    assert(b@.skip(0) =~= b@);
    while i < n && i < m && a[i] == b[i]
        invariant
            n == a@.len(),
            m == b@.len(),
            i <= n,
            i <= m,
            a@.take(i as int) == b@.take(i as int),
            text_lt(a@, b@) == text_lt(a@.skip(i as int), b@.skip(i as int)),
            text_lt(b@, a@) == text_lt(b@.skip(i as int), a@.skip(i as int)),
        decreases n - i,
    {
        proof {
            assert(a@.skip(i as int).drop_first() =~= a@.skip(i + 1));
            assert(b@.skip(i as int).drop_first() =~= b@.skip(i + 1));
            assert(a@.take(i + 1) =~= a@.take(i as int).push(a@[i as int]));
            assert(b@.take(i + 1) =~= b@.take(i as int).push(b@[i as int]));
        }
        i += 1;
    }
    proof {
        lemma_text_lt_irreflexive(a@);
    }
    if i < n && i < m {
        if a[i] < b[i] {
            proof {
                assert(a@ != b@) by {
                    if a@ == b@ {
                        assert(a@[i as int] == b@[i as int]);
                    }
                }
            }
            -1
        } else {
            proof {
                assert(a@ != b@) by {
                    if a@ == b@ {
                        assert(a@[i as int] == b@[i as int]);
                    }
                }
            }
            1
        }
    } else if n == m {
        assert(a@ =~= a@.take(i as int));
        assert(b@ =~= b@.take(i as int));
        0
    } else if i == n {
        assert(a@ != b@);
        -1
    } else {
        assert(a@ != b@);
        1
    }
}

} // verus!
