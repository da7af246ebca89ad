//! Text as sequences of characters: conversion between strings and
//! character vectors, white space, trimming, prefixes and searching.

use vstd::prelude::*;
use crate::scan::{first_where, lemma_first_where, lemma_first_where_is};

verus! {

/// Whether `c` has the Unicode property White_Space.
pub open spec fn white_space(c: char) -> bool {
    let n = c as u32;
    ||| 0x09 <= n <= 0x0D
    ||| n == 0x20
    ||| n == 0x85
    ||| n == 0xA0
    ||| n == 0x1680
    ||| 0x2000 <= n <= 0x200A
    ||| n == 0x2028
    ||| n == 0x2029
    ||| n == 0x202F
    ||| n == 0x205F
    ||| n == 0x3000
}

/// Whether `s` begins with `p`.
pub open spec fn begins_with(s: Seq<char>, p: Seq<char>) -> bool {
    p.len() <= s.len() && s.take(p.len() as int) =~= p
}

/// The number of white-space characters at the end of `s`.
pub open spec fn trailing_white(s: Seq<char>) -> nat
    decreases s.len(),
{
    if s.len() > 0 && white_space(s.last()) {
        1 + trailing_white(s.drop_last())
    } else {
        0
    }
}

/// The number of white-space characters at the start of `s`.
pub open spec fn leading_white(s: Seq<char>) -> nat
    decreases s.len(),
{
    if s.len() > 0 && white_space(s[0]) {
        1 + leading_white(s.drop_first())
    } else {
        0
    }
}

/// The index just behind the last character of `s` that is not white space;
/// 0 where there is none.
pub open spec fn trim_end(s: Seq<char>) -> int {
    s.len() - trailing_white(s)
}

/// The index of the first character of `s` that is not white space;
/// `trim_end(s)` where there is none.
pub open spec fn trim_start(s: Seq<char>) -> int {
    leading_white(s.take(trim_end(s))) as int
}

/// `s` without the white space at its two ends.
pub open spec fn trimmed(s: Seq<char>) -> Seq<char> {
    s.subrange(trim_start(s), trim_end(s))
}

/// The condition that a character is `c`.
pub open spec fn is_char(c: char) -> spec_fn(char) -> bool {
    |x: char| x == c
}

/// The index of the first `c` in `s`; the length of `s` where there is none.
pub open spec fn first_index_of(s: Seq<char>, c: char) -> int {
    first_where(s, is_char(c))
}

/// Whether `p` occurs in `s` as a run of adjacent characters.
pub open spec fn contains_run(s: Seq<char>, p: Seq<char>) -> bool {
    exists|i: int| 0 <= i <= s.len() && #[trigger] begins_with(s.skip(i), p)
}

/// `trailing_white(s)` is at most the length of `s`, counts white space only,
/// and stops before a character that is not white space.
pub proof fn lemma_trailing_white(s: Seq<char>)
    ensures
        trailing_white(s) <= s.len(),
        forall|j: int| s.len() - trailing_white(s) <= j < s.len() ==> white_space(#[trigger] s[j]),
        trailing_white(s) < s.len() ==> !white_space(s[s.len() - trailing_white(s) - 1]),
    decreases s.len(),
{
    if s.len() > 0 && white_space(s.last()) {
        let t = s.drop_last();
        lemma_trailing_white(t);
        assert forall|j: int| s.len() - trailing_white(s) <= j < s.len() implies white_space(
            #[trigger] s[j],
        ) by {
            if j < s.len() - 1 {
                assert(s[j] == t[j]);
            }
        }
        if trailing_white(s) < s.len() {
            assert(t[t.len() - trailing_white(t) - 1] == s[s.len() - trailing_white(s) - 1]);
        }
    }
}

/// A run of `n` white-space characters at the end of `s` that no white space
/// precedes is the whole of the trailing white space.
pub proof fn lemma_trailing_white_is(s: Seq<char>, n: int)
    requires
        0 <= n <= s.len(),
        forall|j: int| s.len() - n <= j < s.len() ==> white_space(#[trigger] s[j]),
        n < s.len() ==> !white_space(s[s.len() - n - 1]),
    ensures
        trailing_white(s) == n,
    decreases n,
{
    if n > 0 {
        let t = s.drop_last();
        assert(white_space(s[s.len() - 1]));
        assert forall|j: int| t.len() - (n - 1) <= j < t.len() implies white_space(
            #[trigger] t[j],
        ) by {
            assert(t[j] == s[j]);
        }
        if n - 1 < t.len() {
            assert(t[t.len() - (n - 1) - 1] == s[s.len() - n - 1]);
        }
        lemma_trailing_white_is(t, n - 1);
    } else if s.len() > 0 {
        assert(!white_space(s.last()));
    }
}

/// `leading_white(s)` is at most the length of `s`, counts white space only,
/// and stops at a character that is not white space.
pub proof fn lemma_leading_white(s: Seq<char>)
    ensures
        leading_white(s) <= s.len(),
        forall|j: int| 0 <= j < leading_white(s) ==> white_space(#[trigger] s[j]),
        leading_white(s) < s.len() ==> !white_space(s[leading_white(s) as int]),
    decreases s.len(),
{
    if s.len() > 0 && white_space(s[0]) {
        let t = s.drop_first();
        lemma_leading_white(t);
        assert forall|j: int| 0 <= j < leading_white(s) implies white_space(#[trigger] s[j]) by {
            if j > 0 {
                assert(s[j] == t[j - 1]);
            }
        }
        if leading_white(s) < s.len() {
            assert(t[leading_white(t) as int] == s[leading_white(s) as int]);
        }
    }
}

/// A run of `n` white-space characters at the start of `s` that no white
/// space follows is the whole of the leading white space.
pub proof fn lemma_leading_white_is(s: Seq<char>, n: int)
    requires
        0 <= n <= s.len(),
        forall|j: int| 0 <= j < n ==> white_space(#[trigger] s[j]),
        n < s.len() ==> !white_space(s[n]),
    ensures
        leading_white(s) == n,
    decreases n,
{
    if n > 0 {
        let t = s.drop_first();
        assert(white_space(s[0]));
        assert forall|j: int| 0 <= j < n - 1 implies white_space(#[trigger] t[j]) by {
            assert(t[j] == s[j + 1]);
        }
        if n - 1 < t.len() {
            assert(t[n - 1] == s[n]);
        }
        lemma_leading_white_is(t, n - 1);
    } else if s.len() > 0 {
        assert(!white_space(s[0]));
    }
}

/// The bounds of the trimmed text lie in `s`, in order; no white space
/// stands at either end of what is between them.
pub proof fn lemma_trim_bounds(s: Seq<char>)
    ensures
        0 <= trim_start(s) <= trim_end(s) <= s.len(),
        trim_start(s) < trim_end(s) ==> !white_space(s[trim_start(s)]) && !white_space(
            s[trim_end(s) - 1],
        ),
        forall|j: int| 0 <= j < trim_start(s) ==> white_space(#[trigger] s[j]),
        forall|j: int| trim_end(s) <= j < s.len() ==> white_space(#[trigger] s[j]),
{
    lemma_trailing_white(s);
    let head = s.take(trim_end(s));
    lemma_leading_white(head);
    assert forall|j: int| 0 <= j < trim_start(s) implies white_space(#[trigger] s[j]) by {
        assert(head[j] == s[j]);
    }
    if trim_start(s) < trim_end(s) {
        assert(head[trim_start(s)] == s[trim_start(s)]);
    }
}

/// Bounds that enclose no white space at their ends, with white space only
/// outside them, are the bounds of the trimmed text.
pub proof fn lemma_trim_bounds_are(s: Seq<char>, lo: int, hi: int)
    requires
        0 <= lo <= hi <= s.len(),
        forall|j: int| 0 <= j < lo ==> white_space(#[trigger] s[j]),
        forall|j: int| hi <= j < s.len() ==> white_space(#[trigger] s[j]),
        lo < hi ==> !white_space(s[lo]) && !white_space(s[hi - 1]),
        lo == hi ==> lo == 0,
    ensures
        trim_start(s) == lo,
        trim_end(s) == hi,
{
    if lo == hi {
        lemma_trailing_white_is(s, s.len() as int);
        assert(s.take(0).len() == 0);
    } else {
        lemma_trailing_white_is(s, s.len() - hi);
        let head = s.take(hi);
        assert forall|j: int| 0 <= j < lo implies white_space(#[trigger] head[j]) by {
            assert(head[j] == s[j]);
        }
        assert(head[lo] == s[lo]);
        lemma_leading_white_is(head, lo);
    }
}

/// `first_index_of(s, c)` lies in `s` or is its length; no `c` stands before
/// it, and `c` stands at it where it lies in `s`.
pub proof fn lemma_first_index_of(s: Seq<char>, c: char)
    ensures
        0 <= first_index_of(s, c) <= s.len(),
        forall|j: int| 0 <= j < first_index_of(s, c) ==> #[trigger] s[j] != c,
        first_index_of(s, c) < s.len() ==> s[first_index_of(s, c)] == c,
{
    lemma_first_where(s, is_char(c));
}

/// An index that no `c` precedes, and at which `c` stands or `s` ends, is
/// `first_index_of(s, c)`.
pub proof fn lemma_first_index_of_is(s: Seq<char>, c: char, n: int)
    requires
        0 <= n <= s.len(),
        forall|j: int| 0 <= j < n ==> #[trigger] s[j] != c,
        n < s.len() ==> s[n] == c,
    ensures
        first_index_of(s, c) == n,
{
    lemma_first_where_is(s, is_char(c), n);
}

/// The characters of `s`, in order.
pub fn chars_of(s: &str) -> (out: Vec<char>)
    ensures
        out@ == s@,
{
    broadcast use vstd::string::group_string_axioms;

    let mut out: Vec<char> = Vec::new();
    for c in it: s.chars()
        invariant
            it.seq() == s@,
            out@ == s@.take(it.index() as int),
    {
        out.push(c);
        assert(out@ =~= s@.take(it.index() + 1));
    }
    assert(out@ =~= s@);
    out
}

/// Whether `c` is white space.
pub fn is_white_space(c: char) -> (r: bool)
    ensures
        r == white_space(c),
{
    let n: u32 = c as u32;
    (0x09 <= n && n <= 0x0D) || n == 0x20 || n == 0x85 || n == 0xA0 || n == 0x1680 || (0x2000 <= n
        && n <= 0x200A) || n == 0x2028 || n == 0x2029 || n == 0x202F || n == 0x205F || n == 0x3000
}

/// The bounds of the trimmed text of `line`: the index of its first
/// character and the index behind its last.
pub fn trim_bounds(line: &Vec<char>) -> (b: (usize, usize))
    ensures
        b.0 == trim_start(line@),
        b.1 == trim_end(line@),
        b.0 <= b.1 <= line.len(),
{
    let mut hi: usize = line.len();
    while hi > 0 && is_white_space(line[hi - 1])
        invariant
            hi <= line.len(),
            forall|j: int| hi <= j < line.len() ==> white_space(#[trigger] line@[j]),
        decreases hi,
    {
        hi -= 1;
    }
    let mut lo: usize = 0;
    while lo < hi && is_white_space(line[lo])
        invariant
            lo <= hi <= line.len(),
            forall|j: int| 0 <= j < lo ==> white_space(#[trigger] line@[j]),
        decreases hi - lo,
    {
        lo += 1;
    }
    proof {
        if lo == hi {
            // everything before `hi` is white space, so `hi` is 0
            if hi > 0 {
                assert(white_space(line@[hi - 1]));
            }
            assert(hi == 0);
        }
        lemma_trim_bounds_are(line@, lo as int, hi as int);
    }
    (lo, hi)
}

/// Whether the part of `line` from `from` up to `to` begins with `pat`.
pub fn has_prefix_chars(line: &Vec<char>, from: usize, to: usize, pat: &Vec<char>) -> (r: bool)
    requires
        from <= to <= line.len(),
    ensures
        r == begins_with(line@.subrange(from as int, to as int), pat@),
{
    let n: usize = pat.len();
    if n > to - from {
        return false;
    }
    let ghost part = line@.subrange(from as int, to as int);
    let mut i: usize = 0;
    while i < n
        invariant
            i <= n <= to - from,
            from <= to <= line.len(),
            n == pat@.len(),
            part == line@.subrange(from as int, to as int),
            forall|j: int| 0 <= j < i ==> part[j] == pat@[j],
        decreases n - i,
    {
        if line[from + i] != pat[i] {
            assert(part[i as int] != pat@[i as int]);
            assert(part.take(n as int)[i as int] == part[i as int]);
            return false;
        }
        i += 1;
    }
    assert(part.take(n as int) =~= pat@);
    true
}

/// Whether the part of `line` from `from` up to `to` begins with `pat`.
pub fn has_prefix(line: &Vec<char>, from: usize, to: usize, pat: &str) -> (r: bool)
    requires
        from <= to <= line.len(),
    ensures
        r == begins_with(line@.subrange(from as int, to as int), pat@),
{
    let pat_chars = chars_of(pat);
    has_prefix_chars(line, from, to, &pat_chars)
}

/// Whether `line` begins with `pat`.
pub fn line_has_prefix(line: &Vec<char>, pat: &str) -> (r: bool)
    ensures
        r == begins_with(line@, pat@),
{
    assert(line@.subrange(0, line.len() as int) =~= line@);
    has_prefix(line, 0, line.len(), pat)
}

/// The index of the first `c` in the part of `line` from `from` up to `to`,
/// counted from `from`; the length of that part where it holds no `c`.
pub fn find_char(line: &Vec<char>, from: usize, to: usize, c: char) -> (at: usize)
    requires
        from <= to <= line.len(),
    ensures
        at == first_index_of(line@.subrange(from as int, to as int), c),
        at <= to - from,
{
    let ghost part = line@.subrange(from as int, to as int);
    let mut i: usize = from;
    while i < to && line[i] != c
        invariant
            from <= i <= to <= line.len(),
            part == line@.subrange(from as int, to as int),
            forall|j: int| 0 <= j < i - from ==> #[trigger] part[j] != c,
        decreases to - i,
    {
        i += 1;
    }
    proof {
        lemma_first_index_of_is(part, c, i - from);
    }
    i - from
}

/// Whether `pat` occurs in `hay` as a run of adjacent characters.
pub fn contains(hay: &Vec<char>, pat: &str) -> (r: bool)
    ensures
        r == contains_run(hay@, pat@),
{
    let pat_chars = chars_of(pat);
    let len: usize = hay.len();
    let mut i: usize = 0;
    while i <= len
        invariant
            i <= len + 1,
            len == hay.len(),
            pat_chars@ == pat@,
            forall|j: int| 0 <= j < i ==> !#[trigger] begins_with(hay@.skip(j), pat@),
        decreases len + 1 - i,
    {
        assert(hay@.subrange(i as int, len as int) =~= hay@.skip(i as int));
        if has_prefix_chars(hay, i, len, &pat_chars) {
            return true;
        }
        if i == len {
            return false;
        }
        i += 1;
    }
    false
}

/// A copy of the part of `line` from `from` up to `to`.
pub fn slice_of(line: &Vec<char>, from: usize, to: usize) -> (out: Vec<char>)
    requires
        from <= to <= line.len(),
    ensures
        out@ == line@.subrange(from as int, to as int),
{
    let mut out: Vec<char> = Vec::new();
    let mut i: usize = from;
    while i < to
        invariant
            from <= i <= to <= line.len(),
            out@ == line@.subrange(from as int, i as int),
        decreases to - i,
    {
        out.push(line[i]);
        assert(out@ =~= line@.subrange(from as int, i + 1));
        i += 1;
    }
    out
}

/// The lowercase form of `s`, as `str::to_lowercase` of the standard library
/// gives it: each character replaced by its Unicode lowercase mapping.
pub uninterp spec fn lowercase_of(s: Seq<char>) -> Seq<char>;

/// Calls `str::to_lowercase`. Nothing is proved of the mapping: the contract
/// only names what comes back, as a function of the characters handed in.
#[verifier::external_body]
pub(crate) fn to_lowercase(s: &str) -> (out: String)
    ensures
        out@ == lowercase_of(s@),
{
    s.to_lowercase()
}

/// Collects characters into a `String` with `Iterator::collect`. The
/// contract claims that the string spells exactly those characters, in order.
#[verifier::external_body]
pub(crate) fn string_of(chars: &Vec<char>) -> (out: String)
    ensures
        out@ == chars@,
{
    chars.iter().collect()
}

} // verus!
