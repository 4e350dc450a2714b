//! Character-level helpers for the text scanners: white space, trimming,
//! searching for a class of characters, prefixes and suffixes, splitting,
//! and building strings from characters.

use vstd::prelude::*;

verus! {

broadcast use vstd::string::group_string_axioms;

/// Unicode `White_Space` characters, the ones `char::is_whitespace` accepts.
pub open spec fn is_white_space(c: char) -> bool {
    ||| ('\u{9}' <= c && c <= '\u{d}')
    ||| c == ' '
    ||| c == '\u{85}'
    ||| c == '\u{a0}'
    ||| c == '\u{1680}'
    ||| ('\u{2000}' <= c && c <= '\u{200a}')
    ||| c == '\u{2028}'
    ||| c == '\u{2029}'
    ||| c == '\u{202f}'
    ||| c == '\u{205f}'
    ||| c == '\u{3000}'
}

pub fn is_whitespace_char(c: char) -> (b: bool)
    ensures
        b == is_white_space(c),
{
    ('\u{9}' <= c && c <= '\u{d}') || c == ' ' || c == '\u{85}' || c == '\u{a0}' || c
        == '\u{1680}' || ('\u{2000}' <= c && c <= '\u{200a}') || c == '\u{2028}' || c
        == '\u{2029}' || c == '\u{202f}' || c == '\u{205f}' || c == '\u{3000}'
}

/// A class of characters that the scanners search for or split at.
#[derive(Clone, Copy)]
pub enum CharClass {
    /// Exactly this character.
    Is(char),
    /// Any white-space character.
    WhiteSpace,
    /// The characters that end the host part of a URL: `/`, `?` and `#`.
    HostEnd,
}

pub open spec fn class_has(k: CharClass, c: char) -> bool {
    match k {
        CharClass::Is(x) => c == x,
        CharClass::WhiteSpace => is_white_space(c),
        CharClass::HostEnd => c == '/' || c == '?' || c == '#',
    }
}

pub fn in_class(k: CharClass, c: char) -> (b: bool)
    ensures
        b == class_has(k, c),
{
    match k {
        CharClass::Is(x) => c == x,
        CharClass::WhiteSpace => is_whitespace_char(c),
        CharClass::HostEnd => c == '/' || c == '?' || c == '#',
    }
}

/// The index of the first character of class `k` in `s`, or `s.len()` when
/// there is none.
pub open spec fn first_in(s: Seq<char>, k: CharClass) -> int
    decreases s.len(),
{
    if s.len() == 0 {
        0
    } else if class_has(k, s[0]) {
        0
    } else {
        1 + first_in(s.drop_first(), k)
    }
}

/// The index of the last character of class `k` in `s`, or `-1` when there
/// is none.
pub open spec fn last_in(s: Seq<char>, k: CharClass) -> int
    decreases s.len(),
{
    if s.len() == 0 {
        -1
    } else if class_has(k, s.last()) {
        s.len() - 1
    } else {
        last_in(s.drop_last(), k)
    }
}

pub proof fn lemma_first_in_bounds(s: Seq<char>, k: CharClass)
    ensures
        0 <= first_in(s, k) <= s.len(),
    decreases s.len(),
{
    if s.len() > 0 && !class_has(k, s[0]) {
        lemma_first_in_bounds(s.drop_first(), k);
    }
}

/// Whether `s` holds a character of class `k`.
pub open spec fn has_char_in(s: Seq<char>, k: CharClass) -> bool {
    exists|i: int| 0 <= i < s.len() && class_has(k, #[trigger] s[i])
}

/// `s` with leading white space removed.
pub open spec fn trim_start(s: Seq<char>) -> Seq<char>
    decreases s.len(),
{
    if s.len() > 0 && is_white_space(s[0]) {
        trim_start(s.drop_first())
    } else {
        s
    }
}

/// `s` with trailing white space removed.
pub open spec fn trim_end(s: Seq<char>) -> Seq<char>
    decreases s.len(),
{
    if s.len() > 0 && is_white_space(s.last()) {
        trim_end(s.drop_last())
    } else {
        s
    }
}

/// `s` with leading and trailing white space removed.
pub open spec fn trim(s: Seq<char>) -> Seq<char> {
    trim_end(trim_start(s))
}

pub proof fn lemma_trim_start_len(s: Seq<char>)
    ensures
        trim_start(s).len() <= s.len(),
    decreases s.len(),
{
    if s.len() > 0 && is_white_space(s[0]) {
        lemma_trim_start_len(s.drop_first());
    }
}

pub proof fn lemma_trim_end_len(s: Seq<char>)
    ensures
        trim_end(s).len() <= s.len(),
    decreases s.len(),
{
    if s.len() > 0 && is_white_space(s.last()) {
        lemma_trim_end_len(s.drop_last());
    }
}

pub proof fn lemma_trim_len(s: Seq<char>)
    ensures
        trim(s).len() <= s.len(),
{
    lemma_trim_start_len(s);
    lemma_trim_end_len(trim_start(s));
}

pub open spec fn has_prefix(s: Seq<char>, p: Seq<char>) -> bool {
    p.len() <= s.len() && s.subrange(0, p.len() as int) == p
}

pub open spec fn has_suffix(s: Seq<char>, p: Seq<char>) -> bool {
    p.len() <= s.len() && s.subrange(s.len() - p.len(), s.len() as int) == p
}

/// The pieces of `s` between characters of class `k`, in order; there is
/// always one more piece than separators, and pieces may be empty.
pub open spec fn pieces(s: Seq<char>, k: CharClass) -> Seq<Seq<char>>
    decreases s.len(),
{
    if s.len() == 0 {
        seq![Seq::<char>::empty()]
    } else {
        let before = pieces(s.drop_last(), k);
        if class_has(k, s.last()) {
            before.push(Seq::<char>::empty())
        } else {
            before.update(before.len() - 1, before.last().push(s.last()))
        }
    }
}

pub proof fn lemma_pieces_nonempty(s: Seq<char>, k: CharClass)
    ensures
        pieces(s, k).len() >= 1,
    decreases s.len(),
{
    if s.len() > 0 {
        lemma_pieces_nonempty(s.drop_last(), k);
    }
}

/// The bounds of `s[lo..hi]` with leading and trailing white space removed.
pub fn trim_bounds(s: &[char], lo: usize, hi: usize) -> (r: (usize, usize))
    requires
        lo <= hi <= s@.len(),
    ensures
        lo <= r.0 <= r.1 <= hi,
        s@.subrange(r.0 as int, r.1 as int) == trim(s@.subrange(lo as int, hi as int)),
{
    let mut i = lo;
    while i < hi && is_whitespace_char(s[i])
        invariant
            lo <= i <= hi,
            hi <= s@.len(),
            trim_start(s@.subrange(lo as int, hi as int)) == trim_start(
                s@.subrange(i as int, hi as int),
            ),
        decreases hi - i,
    {
        assert(s@.subrange(i as int, hi as int).drop_first() =~= s@.subrange(i + 1, hi as int));
        i += 1;
    }
    assert(trim_start(s@.subrange(i as int, hi as int)) == s@.subrange(i as int, hi as int));
    let mut j = hi;
    while j > i && is_whitespace_char(s[j - 1])
        invariant
            i <= j <= hi,
            hi <= s@.len(),
            trim_end(s@.subrange(i as int, hi as int)) == trim_end(s@.subrange(i as int, j as int)),
        decreases j - i,
    {
        assert(s@.subrange(i as int, j as int).drop_last() =~= s@.subrange(i as int, j - 1));
        j -= 1;
    }
    assert(trim_end(s@.subrange(i as int, j as int)) == s@.subrange(i as int, j as int));
    (i, j)
}

/// The end of `s[lo..hi]` with trailing white space removed.
pub fn trim_end_bound(s: &[char], lo: usize, hi: usize) -> (j: usize)
    requires
        lo <= hi <= s@.len(),
    ensures
        lo <= j <= hi,
        s@.subrange(lo as int, j as int) == trim_end(s@.subrange(lo as int, hi as int)),
{
    let mut j = hi;
    while j > lo && is_whitespace_char(s[j - 1])
        invariant
            lo <= j <= hi,
            hi <= s@.len(),
            trim_end(s@.subrange(lo as int, hi as int)) == trim_end(
                s@.subrange(lo as int, j as int),
            ),
        decreases j - lo,
    {
        assert(s@.subrange(lo as int, j as int).drop_last() =~= s@.subrange(lo as int, j - 1));
        j -= 1;
    }
    assert(trim_end(s@.subrange(lo as int, j as int)) == s@.subrange(lo as int, j as int));
    j
}

/// The index of the first character of class `k` in `s[lo..hi]`, counted
/// from the start of `s`, or `hi` when there is none.
pub fn find_first(s: &[char], lo: usize, hi: usize, k: CharClass) -> (i: usize)
    requires
        lo <= hi <= s@.len(),
    ensures
        lo <= i <= hi,
        i - lo == first_in(s@.subrange(lo as int, hi as int), k),
        forall|m: int| lo <= m < i ==> !class_has(k, #[trigger] s@[m]),
        i < hi ==> class_has(k, s@[i as int]),
{
    let mut i = lo;
    while i < hi && !in_class(k, s[i])
        invariant
            lo <= i <= hi,
            hi <= s@.len(),
            first_in(s@.subrange(lo as int, hi as int), k) == (i - lo) + first_in(
                s@.subrange(i as int, hi as int),
                k,
            ),
            forall|m: int| lo <= m < i ==> !class_has(k, #[trigger] s@[m]),
        decreases hi - i,
    {
        assert(s@.subrange(i as int, hi as int).drop_first() =~= s@.subrange(i + 1, hi as int));
        i += 1;
    }
    i
}

/// The index of the last character of class `k` in `s[lo..hi]`, counted
/// from the start of `s`, if there is one.
pub fn find_last(s: &[char], lo: usize, hi: usize, k: CharClass) -> (r: Option<usize>)
    requires
        lo <= hi <= s@.len(),
    ensures
        match r {
            Some(i) => lo <= i < hi && i - lo == last_in(s@.subrange(lo as int, hi as int), k),
            None => last_in(s@.subrange(lo as int, hi as int), k) == -1,
        },
{
    let mut j = hi;
    while j > lo && !in_class(k, s[j - 1])
        invariant
            lo <= j <= hi,
            hi <= s@.len(),
            last_in(s@.subrange(lo as int, hi as int), k) == last_in(
                s@.subrange(lo as int, j as int),
                k,
            ),
        decreases j - lo,
    {
        assert(s@.subrange(lo as int, j as int).drop_last() =~= s@.subrange(lo as int, j - 1));
        j -= 1;
    }
    if j > lo {
        Some(j - 1)
    } else {
        None
    }
}

/// Whether `s[lo..hi]` holds a character of class `k`.
pub fn contains_class(s: &[char], lo: usize, hi: usize, k: CharClass) -> (b: bool)
    requires
        lo <= hi <= s@.len(),
    ensures
        b == has_char_in(s@.subrange(lo as int, hi as int), k),
{
    let i = find_first(s, lo, hi, k);
    if i < hi {
        assert(class_has(k, s@.subrange(lo as int, hi as int)[i - lo]));
        true
    } else {
        assert forall|m: int| 0 <= m < hi - lo implies !class_has(
            k,
            #[trigger] s@.subrange(lo as int, hi as int)[m],
        ) by {
            assert(s@.subrange(lo as int, hi as int)[m] == s@[lo + m]);
        }
        false
    }
}

/// Whether `s[lo..hi]` begins with `p`.
pub fn starts_with_at(s: &[char], lo: usize, hi: usize, p: &[char]) -> (b: bool)
    requires
        lo <= hi <= s@.len(),
    ensures
        b == has_prefix(s@.subrange(lo as int, hi as int), p@),
{
    if p.len() > hi - lo {
        return false;
    }
    let mut m: usize = 0;
    while m < p.len()
        invariant
            m <= p@.len(),
            p@.len() <= hi - lo,
            lo <= hi <= s@.len(),
            forall|q: int| 0 <= q < m ==> s@[lo + q] == p@[q],
        decreases p@.len() - m,
    {
        if s[lo + m] != p[m] {
            assert(s@.subrange(lo as int, hi as int).subrange(0, p@.len() as int)[m as int]
                != p@[m as int]);
            return false;
        }
        m += 1;
    }
    assert(s@.subrange(lo as int, hi as int).subrange(0, p@.len() as int) =~= p@);
    true
}

/// Whether `s[lo..hi]` ends with `p`.
pub fn ends_with_at(s: &[char], lo: usize, hi: usize, p: &[char]) -> (b: bool)
    requires
        lo <= hi <= s@.len(),
    ensures
        b == has_suffix(s@.subrange(lo as int, hi as int), p@),
{
    if p.len() > hi - lo {
        return false;
    }
    let start = hi - p.len();
    let b = starts_with_at(s, start, hi, p);
    assert(s@.subrange(start as int, hi as int) =~= s@.subrange(lo as int, hi as int).subrange(
        (hi - lo) - p@.len(),
        hi - lo,
    ));
    assert(s@.subrange(start as int, hi as int).subrange(0, p@.len() as int) =~= s@.subrange(
        start as int,
        hi as int,
    ));
    b
}

/// The characters `v[lo..hi]` as a string.
pub fn string_from_chars(v: &[char], lo: usize, hi: usize) -> (s: String)
    requires
        lo <= hi <= v@.len(),
    ensures
        s@ == v@.subrange(lo as int, hi as int),
{
    let mut s = String::new();
    let mut i = lo;
    while i < hi
        invariant
            lo <= i <= hi,
            hi <= v@.len(),
            s@ == v@.subrange(lo as int, i as int),
        decreases hi - i,
    {
        string_push(&mut s, v[i]);
        assert(v@.subrange(lo as int, i + 1) =~= v@.subrange(lo as int, i as int).push(v@[i as int]));
        i += 1;
    }
    s
}

/// The characters of a string, in order.
pub fn str_chars(s: &str) -> (v: Vec<char>)
    ensures
        v@ == s@,
{
    let mut v: Vec<char> = Vec::new();
    for ch in it: s.chars()
        invariant
            v@ == it.seq().take(it.index() as int),
    {
        v.push(ch);
    }
    v
}

/// The pieces of `s[lo..hi]` between characters of class `k`, as character
/// vectors.
pub fn split_pieces(s: &[char], lo: usize, hi: usize, k: CharClass) -> (r: Vec<Vec<char>>)
    requires
        lo <= hi <= s@.len(),
    ensures
        r@.len() == pieces(s@.subrange(lo as int, hi as int), k).len(),
        forall|q: int|
            0 <= q < r@.len() ==> #[trigger] r@[q]@ == pieces(
                s@.subrange(lo as int, hi as int),
                k,
            )[q],
{
    let mut r: Vec<Vec<char>> = Vec::new();
    let mut cur: Vec<char> = Vec::new();
    let mut i = lo;
    assert(s@.subrange(lo as int, lo as int) =~= Seq::<char>::empty());
    while i < hi
        invariant
            lo <= i <= hi,
            hi <= s@.len(),
            r@.len() + 1 == pieces(s@.subrange(lo as int, i as int), k).len(),
            forall|q: int|
                0 <= q < r@.len() ==> #[trigger] r@[q]@ == pieces(
                    s@.subrange(lo as int, i as int),
                    k,
                )[q],
            cur@ == pieces(s@.subrange(lo as int, i as int), k).last(),
        decreases hi - i,
    {
        let ghost prefix = s@.subrange(lo as int, i as int);
        let ghost next = s@.subrange(lo as int, i + 1);
        assert(next.drop_last() =~= prefix);
        assert(next.last() == s@[i as int]);
        proof {
            lemma_pieces_nonempty(prefix, k);
        }
        let c = s[i];
        if in_class(k, c) {
            let done = cur;
            r.push(done);
            cur = Vec::new();
        } else {
            cur.push(c);
        }
        i += 1;
    }
    r.push(cur);
    r
}

/// The lines of `s` as `str::lines` gives them: the pieces between line
/// feeds, without a final empty piece after a closing line feed. A carriage
/// return before a line feed stays on its line; every caller trims lines,
/// which removes it.
pub open spec fn text_lines(s: Seq<char>) -> Seq<Seq<char>> {
    let p = pieces(s, CharClass::Is('\n'));
    if p.last().len() == 0 {
        p.drop_last()
    } else {
        p
    }
}

/// The lines of `s[lo..hi]`.
pub fn lines_of(s: &[char], lo: usize, hi: usize) -> (r: Vec<Vec<char>>)
    requires
        lo <= hi <= s@.len(),
    ensures
        r@.len() == text_lines(s@.subrange(lo as int, hi as int)).len(),
        forall|q: int|
            0 <= q < r@.len() ==> #[trigger] r@[q]@ == text_lines(
                s@.subrange(lo as int, hi as int),
            )[q],
{
    let mut p = split_pieces(s, lo, hi, CharClass::Is('\n'));
    proof {
        lemma_pieces_nonempty(s@.subrange(lo as int, hi as int), CharClass::Is('\n'));
    }
    let n = p.len();
    if p[n - 1].len() == 0 {
        p.pop();
    }
    p
}

/// A copy of `v[lo..hi]`.
pub fn copy_range(v: &[char], lo: usize, hi: usize) -> (r: Vec<char>)
    requires
        lo <= hi <= v@.len(),
    ensures
        r@ == v@.subrange(lo as int, hi as int),
{
    let mut r: Vec<char> = Vec::new();
    let mut i = lo;
    while i < hi
        invariant
            lo <= i <= hi,
            hi <= v@.len(),
            r@ == v@.subrange(lo as int, i as int),
        decreases hi - i,
    {
        r.push(v[i]);
        assert(v@.subrange(lo as int, i + 1) =~= v@.subrange(lo as int, i as int).push(v@[i as int]));
        i += 1;
    }
    r
}

pub open spec fn http_scheme() -> Seq<char> {
    seq!['h', 't', 't', 'p', ':', '/', '/']
}

pub open spec fn https_scheme() -> Seq<char> {
    seq!['h', 't', 't', 'p', 's', ':', '/', '/']
}

/// A text that starts with `http://` or `https://`.
pub open spec fn is_http_url(t: Seq<char>) -> bool {
    has_prefix(t, http_scheme()) || has_prefix(t, https_scheme())
}

/// Whether `line` is an http(s) URL.
pub fn is_http_line(line: &[char], lo: usize, hi: usize) -> (b: bool)
    requires
        lo <= hi <= line@.len(),
    ensures
        b == is_http_url(line@.subrange(lo as int, hi as int)),
{
    let http: Vec<char> = vec!['h', 't', 't', 'p', ':', '/', '/'];
    let https: Vec<char> = vec!['h', 't', 't', 'p', 's', ':', '/', '/'];
    assert(http@ == http_scheme());
    assert(https@ == https_scheme());
    starts_with_at(line, lo, hi, &http) || starts_with_at(line, lo, hi, &https)
}

} // verus!

verus! {

/// Calls `String::push`: the character appended.
#[verifier::external_body]
pub(crate) fn string_push(s: &mut String, c: char)
    ensures
        final(s)@ == old(s)@.push(c),
{
    s.push(c)
}

} // verus!
