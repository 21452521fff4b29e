//! Character-level text utilities shared by the format parsers: conversion
//! between `&str` and character vectors, whitespace handling, splitting and
//! substring search, each tied to a recursive specification over `Seq<char>`.

use vstd::prelude::*;
use vstd::string::StrSliceExecFns;

verus! {

/// The whitespace characters that separate columns and pad lines in the
/// tool outputs handled here: space, tab and carriage return.
pub open spec fn is_space_char(c: char) -> bool {
    c == ' ' || c == '\t' || c == '\r'
}

pub fn is_space(c: char) -> (r: bool)
    ensures
        r == is_space_char(c),
{
    c == ' ' || c == '\t' || c == '\r'
}

/// Relies on String::push: appends the given character to the end of the string.
#[verifier::external_body]
pub(crate) fn push_char(s: &mut String, c: char)
    ensures
        final(s)@ == old(s)@.push(c),
{
    s.push(c);
}

/// Collects the characters of a string slice into a vector.
pub fn to_chars(s: &str) -> (r: Vec<char>)
    ensures
        r@ == s@,
{
    let n = s.unicode_len();
    let mut v: Vec<char> = Vec::new();
    let mut i: usize = 0;
    while i < n
        invariant
            i <= n,
            n == s@.len(),
            v@ == s@.take(i as int),
        decreases n - i,
    {
        let c = s.get_char(i);
        v.push(c);
        i += 1;
        proof {
            assert(v@ =~= s@.take(i as int));
        }
    }
    proof {
        assert(v@ =~= s@);
    }
    v
}

/// Builds a string from a range of a character slice.
pub fn chars_to_string(s: &[char], from: usize, to: usize) -> (r: String)
    requires
        from <= to <= s@.len(),
    ensures
        r@ == s@.subrange(from as int, to as int),
{
    let mut out = String::new();
    let mut i: usize = from;
    while i < to
        invariant
            from <= i <= to <= s@.len(),
            out@ == s@.subrange(from as int, i as int),
        decreases to - i,
    {
        push_char(&mut out, s[i]);
        i += 1;
        proof {
            assert(out@ =~= s@.subrange(from as int, i as int));
        }
    }
    out
}

/// Index of the first occurrence of `c` in `s`, or `s.len()` when absent.
pub open spec fn first_char_index(s: Seq<char>, c: char) -> int
    decreases s.len(),
{
    if s.len() == 0 {
        0
    } else if s[0] == c {
        0
    } else {
        1 + first_char_index(s.drop_first(), c)
    }
}

/// `first_char_index` returns exactly the position of the first occurrence,
/// characterized without recursion.
pub proof fn lemma_first_char_index(s: Seq<char>, c: char, i: int)
    requires
        0 <= i <= s.len(),
        forall|j: int| 0 <= j < i ==> s[j] != c,
        i < s.len() ==> s[i] == c,
    ensures
        first_char_index(s, c) == i,
    decreases s.len(),
{
    if s.len() == 0 {
    } else if s[0] == c {
        assert(i == 0);
    } else {
        assert(i >= 1);
        lemma_first_char_index(s.drop_first(), c, i - 1);
    }
}

/// Index of the first whitespace character in `s`, or `s.len()` when absent.
pub open spec fn first_space_index(s: Seq<char>) -> int
    decreases s.len(),
{
    if s.len() == 0 {
        0
    } else if is_space_char(s[0]) {
        0
    } else {
        1 + first_space_index(s.drop_first())
    }
}

pub proof fn lemma_first_space_index(s: Seq<char>, i: int)
    requires
        0 <= i <= s.len(),
        forall|j: int| 0 <= j < i ==> !is_space_char(s[j]),
        i < s.len() ==> is_space_char(s[i]),
    ensures
        first_space_index(s) == i,
    decreases s.len(),
{
    if s.len() == 0 {
    } else if is_space_char(s[0]) {
        assert(i == 0);
    } else {
        assert(i >= 1);
        lemma_first_space_index(s.drop_first(), i - 1);
    }
}

/// Finds the first occurrence of `c` in `s[from..]`; returns its absolute
/// index, or `s.len()` when there is none.
pub fn find_char_from(s: &[char], c: char, from: usize) -> (r: usize)
    requires
        from <= s@.len(),
    ensures
        from <= r <= s@.len(),
        r - from == first_char_index(s@.skip(from as int), c),
        r < s@.len() ==> s@[r as int] == c,
        forall|j: int| from <= j < r ==> s@[j] != c,
{
    let mut i: usize = from;
    while i < s.len()
        invariant
            from <= i <= s@.len(),
            forall|j: int| from <= j < i ==> s@[j] != c,
        decreases s@.len() - i,
    {
        if s[i] == c {
            proof {
                let t = s@.skip(from as int);
                assert(forall|j: int| 0 <= j < i - from ==> t[j] != c);
                lemma_first_char_index(t, c, i - from);
            }
            return i;
        }
        i += 1;
    }
    proof {
        let t = s@.skip(from as int);
        assert(forall|j: int| 0 <= j < t.len() ==> t[j] != c);
        lemma_first_char_index(t, c, t.len() as int);
    }
    i
}

/// Finds the first whitespace character in `s[from..]`; returns its absolute
/// index, or `s.len()` when there is none.
pub fn find_space_from(s: &[char], from: usize) -> (r: usize)
    requires
        from <= s@.len(),
    ensures
        from <= r <= s@.len(),
        r - from == first_space_index(s@.skip(from as int)),
        r < s@.len() ==> is_space_char(s@[r as int]),
        forall|j: int| from <= j < r ==> !is_space_char(s@[j]),
{
    let mut i: usize = from;
    while i < s.len()
        invariant
            from <= i <= s@.len(),
            forall|j: int| from <= j < i ==> !is_space_char(s@[j]),
        decreases s@.len() - i,
    {
        if is_space(s[i]) {
            proof {
                let t = s@.skip(from as int);
                assert(forall|j: int| 0 <= j < i - from ==> !is_space_char(t[j]));
                lemma_first_space_index(t, i - from);
            }
            return i;
        }
        i += 1;
    }
    proof {
        let t = s@.skip(from as int);
        assert(forall|j: int| 0 <= j < t.len() ==> !is_space_char(t[j]));
        lemma_first_space_index(t, t.len() as int);
    }
    i
}

/// The whitespace-separated tokens of `s`, in order, each non-empty and
/// free of whitespace.
pub open spec fn tokens_spec(s: Seq<char>) -> Seq<Seq<char>>
    decreases s.len(),
{
    if s.len() == 0 {
        Seq::empty()
    } else if is_space_char(s[0]) {
        tokens_spec(s.drop_first())
    } else {
        let i = first_space_index(s);
        if 1 <= i <= s.len() {
            seq![s.take(i)] + tokens_spec(s.skip(i))
        } else {
            Seq::empty()
        }
    }
}

/// Skipping one leading whitespace character leaves the tokens unchanged.
proof fn lemma_tokens_skip_space(s: Seq<char>, pos: int)
    requires
        0 <= pos < s.len(),
        is_space_char(s[pos]),
    ensures
        tokens_spec(s.skip(pos)) == tokens_spec(s.skip(pos + 1)),
{
    assert(s.skip(pos).drop_first() =~= s.skip(pos + 1));
}

/// A maximal non-whitespace run starting at `pos` and ending at `i` is the
/// next token.
proof fn lemma_tokens_take_token(s: Seq<char>, pos: int, i: int)
    requires
        0 <= pos < i <= s.len(),
        forall|j: int| pos <= j < i ==> !is_space_char(s[j]),
        i < s.len() ==> is_space_char(s[i]),
    ensures
        tokens_spec(s.skip(pos)) == seq![s.subrange(pos, i)] + tokens_spec(s.skip(i)),
{
    let t = s.skip(pos);
    assert(!is_space_char(t[0]));
    assert(forall|j: int| 0 <= j < i - pos ==> !is_space_char(t[j]));
    assert(i - pos < t.len() ==> is_space_char(t[i - pos]));
    lemma_first_space_index(t, i - pos);
    assert(t.take(i - pos) =~= s.subrange(pos, i));
    assert(t.skip(i - pos) =~= s.skip(i));
    assert(tokens_spec(s.skip(pos)) =~= seq![s.subrange(pos, i)] + tokens_spec(s.skip(i)));
}

/// Splits `s` into its whitespace-separated tokens.
pub fn split_tokens(s: &[char]) -> (r: Vec<String>)
    ensures
        r.deep_view() == tokens_spec(s@),
{
    let mut r: Vec<String> = Vec::new();
    let mut pos: usize = 0;
    proof {
        assert(s@.skip(0) =~= s@);
        assert(r.deep_view() + tokens_spec(s@) =~= tokens_spec(s@));
    }
    while pos < s.len()
        invariant
            pos <= s@.len(),
            r.deep_view() + tokens_spec(s@.skip(pos as int)) == tokens_spec(s@),
        decreases s@.len() - pos,
    {
        if is_space(s[pos]) {
            proof {
                lemma_tokens_skip_space(s@, pos as int);
            }
            pos += 1;
        } else {
            let end = find_space_from(s, pos);
            let tok = chars_to_string(s, pos, end);
            proof {
                lemma_tokens_take_token(s@, pos as int, end as int);
            }
            let ghost old_dv = r.deep_view();
            r.push(tok);
            proof {
                assert(r.deep_view() =~= old_dv.push(tok@));
                assert(old_dv.push(tok@) + tokens_spec(s@.skip(end as int)) =~= old_dv + (seq![
                    s@.subrange(pos as int, end as int),
                ] + tokens_spec(s@.skip(end as int))));
            }
            pos = end;
        }
    }
    proof {
        assert(tokens_spec(s@.skip(pos as int)) =~= Seq::<Seq<char>>::empty());
        assert(r.deep_view() =~= tokens_spec(s@));
    }
    r
}

/// The lines of `s`, split on the newline character; a trailing newline
/// yields a final empty line.
pub open spec fn lines_spec(s: Seq<char>) -> Seq<Seq<char>>
    decreases s.len(),
{
    let i = first_char_index(s, '\n');
    if 0 <= i < s.len() {
        seq![s.take(i)] + lines_spec(s.skip(i + 1))
    } else {
        seq![s]
    }
}

/// Splits `s` into its lines.
pub fn split_lines(s: &[char]) -> (r: Vec<Vec<char>>)
    ensures
        r.deep_view() == lines_spec(s@),
{
    let mut r: Vec<Vec<char>> = Vec::new();
    let mut pos: usize = 0;
    proof {
        assert(s@.skip(0) =~= s@);
        assert(r.deep_view() + lines_spec(s@) =~= lines_spec(s@));
    }
    loop
        invariant
            pos <= s@.len(),
            r.deep_view() + lines_spec(s@.skip(pos as int)) == lines_spec(s@),
        decreases s@.len() - pos,
    {
        let end = find_char_from(s, '\n', pos);
        let mut line: Vec<char> = Vec::new();
        let mut i: usize = pos;
        while i < end
            invariant
                pos <= i <= end <= s@.len(),
                line@ == s@.subrange(pos as int, i as int),
            decreases end - i,
        {
            line.push(s[i]);
            i += 1;
            proof {
                assert(line@ =~= s@.subrange(pos as int, i as int));
            }
        }
        if end < s.len() {
            proof {
                let t = s@.skip(pos as int);
                assert(t[end - pos] == '\n');
                assert(t.take(end - pos) =~= s@.subrange(pos as int, end as int));
                assert(t.skip(end - pos + 1) =~= s@.skip(end + 1));
                assert(lines_spec(t) =~= seq![s@.subrange(pos as int, end as int)] + lines_spec(
                    s@.skip(end + 1),
                ));
            }
            let ghost old_dv = r.deep_view();
            r.push(line);
            proof {
                assert(r.deep_view() =~~= old_dv.push(line@));
                assert(old_dv.push(line@) + lines_spec(s@.skip(end + 1)) =~= old_dv + (seq![
                    s@.subrange(pos as int, end as int),
                ] + lines_spec(s@.skip(end + 1))));
            }
            pos = end + 1;
        } else {
            proof {
                let t = s@.skip(pos as int);
                assert(first_char_index(t, '\n') == t.len());
                assert(t =~= s@.subrange(pos as int, end as int));
                assert(lines_spec(t) =~= seq![t]);
            }
            let ghost old_dv = r.deep_view();
            r.push(line);
            proof {
                assert(r.deep_view() =~~= old_dv.push(line@));
                assert(old_dv.push(line@) =~= old_dv + seq![s@.subrange(pos as int, end as int)]);
                assert(r.deep_view() =~= lines_spec(s@));
            }
            return r;
        }
    }
}

/// Index of the first non-whitespace character in `s`, or `s.len()` when
/// `s` is all whitespace.
pub open spec fn first_nonspace_index(s: Seq<char>) -> int
    decreases s.len(),
{
    if s.len() == 0 {
        0
    } else if !is_space_char(s[0]) {
        0
    } else {
        1 + first_nonspace_index(s.drop_first())
    }
}

pub proof fn lemma_first_nonspace_index(s: Seq<char>, i: int)
    requires
        0 <= i <= s.len(),
        forall|j: int| 0 <= j < i ==> is_space_char(s[j]),
        i < s.len() ==> !is_space_char(s[i]),
    ensures
        first_nonspace_index(s) == i,
    decreases s.len(),
{
    if s.len() == 0 {
    } else if !is_space_char(s[0]) {
        assert(i == 0);
    } else {
        assert(i >= 1);
        lemma_first_nonspace_index(s.drop_first(), i - 1);
    }
}

/// The number of whitespace characters at the end of `s`.
pub open spec fn trailing_spaces(s: Seq<char>) -> int
    decreases s.len(),
{
    if s.len() == 0 || !is_space_char(s.last()) {
        0
    } else {
        1 + trailing_spaces(s.drop_last())
    }
}

pub proof fn lemma_trailing_spaces(s: Seq<char>, k: int)
    requires
        0 <= k <= s.len(),
        forall|j: int| s.len() - k <= j < s.len() ==> is_space_char(s[j]),
        k < s.len() ==> !is_space_char(s[s.len() - k - 1]),
    ensures
        trailing_spaces(s) == k,
    decreases k,
{
    if k == 0 {
    } else {
        assert(is_space_char(s.last()));
        let t = s.drop_last();
        assert(forall|j: int| t.len() - (k - 1) <= j < t.len() ==> is_space_char(t[j]));
        lemma_trailing_spaces(t, k - 1);
    }
}

/// `s` with leading and trailing whitespace removed.
pub open spec fn trim_spec(s: Seq<char>) -> Seq<char> {
    let a = first_nonspace_index(s);
    let b = s.len() - trailing_spaces(s);
    if a <= b {
        s.subrange(a, b)
    } else {
        Seq::empty()
    }
}

/// Bounds of the range of `s[from..to]` that remains after trimming
/// whitespace from both ends.
pub fn trim_range(s: &[char], from: usize, to: usize) -> (r: (usize, usize))
    requires
        from <= to <= s@.len(),
    ensures
        from <= r.0 <= r.1 <= to,
        s@.subrange(r.0 as int, r.1 as int) == trim_spec(s@.subrange(from as int, to as int)),
{
    let ghost t = s@.subrange(from as int, to as int);
    let mut lo: usize = from;
    while lo < to && is_space(s[lo])
        invariant
            from <= lo <= to <= s@.len(),
            forall|j: int| from <= j < lo ==> is_space_char(s@[j]),
        decreases to - lo,
    {
        lo += 1;
    }
    proof {
        assert(forall|j: int| 0 <= j < lo - from ==> is_space_char(t[j]));
        lemma_first_nonspace_index(t, lo - from);
    }
    if lo == to {
        proof {
            assert(trailing_spaces(t) == t.len()) by {
                lemma_trailing_spaces(t, t.len() as int);
            }
            assert(trim_spec(t) =~= s@.subrange(to as int, to as int));
        }
        return (to, to);
    }
    let mut hi: usize = to;
    while hi > lo && is_space(s[hi - 1])
        invariant
            from <= lo < hi <= to <= s@.len() || (lo < to <= s@.len() && hi == lo + 1),
            !is_space_char(s@[lo as int]),
            forall|j: int| hi <= j < to ==> is_space_char(s@[j]),
        decreases hi,
    {
        hi -= 1;
    }
    proof {
        assert(hi > lo);
        assert(!is_space_char(s@[hi - 1]));
        assert(forall|j: int| t.len() - (to - hi) <= j < t.len() ==> is_space_char(t[j]));
        lemma_trailing_spaces(t, to - hi);
        assert(s@.subrange(lo as int, hi as int) =~= t.subrange(lo - from, hi - from));
    }
    (lo, hi)
}

/// `pat` occurs in `s` at position `i`.
pub open spec fn is_match_at(s: Seq<char>, pat: Seq<char>, i: int) -> bool {
    0 <= i && i + pat.len() <= s.len() && s.subrange(i, i + pat.len()) == pat
}

/// Position of the first occurrence of `pat` in `s`, if any.
pub open spec fn first_match(s: Seq<char>, pat: Seq<char>) -> Option<int>
    decreases s.len(),
{
    if pat.len() > s.len() {
        None
    } else if s.take(pat.len() as int) == pat {
        Some(0int)
    } else if s.len() == 0 {
        None
    } else {
        match first_match(s.drop_first(), pat) {
            None => None,
            Some(i) => Some(i + 1),
        }
    }
}

/// Occurrences in the tail of `s` are occurrences in `s`, shifted by one.
proof fn lemma_match_at_shift(s: Seq<char>, pat: Seq<char>, i: int)
    requires
        s.len() > 0,
        0 <= i,
    ensures
        is_match_at(s, pat, i + 1) <==> is_match_at(s.drop_first(), pat, i),
{
    if i + 1 + pat.len() <= s.len() {
        assert(s.drop_first().subrange(i, i + pat.len() as int) =~= s.subrange(
            i + 1,
            i + 1 + pat.len() as int,
        ));
    }
}

/// `first_match` finds the first occurrence, characterized without
/// recursion.
pub proof fn lemma_first_match_some(s: Seq<char>, pat: Seq<char>, i: int)
    requires
        is_match_at(s, pat, i),
        forall|j: int| 0 <= j < i ==> !is_match_at(s, pat, j),
    ensures
        first_match(s, pat) == Some(i),
    decreases s.len(),
{
    assert(s.subrange(i, i + pat.len() as int) == pat);
    if i == 0 {
        assert(s.take(pat.len() as int) =~= s.subrange(0, pat.len() as int));
    } else {
        assert(s.len() > 0);
        assert(!is_match_at(s, pat, 0));
        assert(s.take(pat.len() as int) =~= s.subrange(0, pat.len() as int)) by {
            assert(pat.len() <= s.len());
        }
        assert(s.take(pat.len() as int) != pat);
        lemma_match_at_shift(s, pat, i - 1);
        assert forall|j: int| 0 <= j < i - 1 implies !is_match_at(s.drop_first(), pat, j) by {
            lemma_match_at_shift(s, pat, j);
        }
        lemma_first_match_some(s.drop_first(), pat, i - 1);
    }
}

/// When `pat` occurs nowhere in `s`, `first_match` reports no match.
pub proof fn lemma_first_match_none(s: Seq<char>, pat: Seq<char>)
    requires
        forall|j: int| !is_match_at(s, pat, j),
    ensures
        first_match(s, pat) is None,
    decreases s.len(),
{
    if pat.len() > s.len() {
    } else {
        assert(s.take(pat.len() as int) =~= s.subrange(0, pat.len() as int));
        assert(!is_match_at(s, pat, 0));
        if s.len() > 0 {
            assert forall|j: int| !is_match_at(s.drop_first(), pat, j) by {
                if 0 <= j {
                    lemma_match_at_shift(s, pat, j);
                }
            }
            lemma_first_match_none(s.drop_first(), pat);
        }
    }
}

/// Whether `pat` occurs at position `at` of `s`.
pub fn matches_at(s: &[char], pat: &[char], at: usize) -> (r: bool)
    ensures
        r == is_match_at(s@, pat@, at as int),
{
    if at > s.len() || pat.len() > s.len() - at {
        return false;
    }
    let mut k: usize = 0;
    while k < pat.len()
        invariant
            at + pat@.len() <= s@.len(),
            s@.len() <= usize::MAX,
            k <= pat@.len(),
            forall|j: int| 0 <= j < k ==> s@[at + j] == pat@[j],
        decreases pat@.len() - k,
    {
        if s[at + k] != pat[k] {
            proof {
                assert(s@.subrange(at as int, at + pat@.len())[k as int] != pat@[k as int]);
            }
            return false;
        }
        k += 1;
    }
    proof {
        assert(s@.subrange(at as int, at + pat@.len()) =~= pat@);
    }
    true
}

/// Position of the first occurrence of `pat` in `s`, if any.
pub fn find_pattern(s: &[char], pat: &[char]) -> (r: Option<usize>)
    ensures
        match r {
            Some(i) => first_match(s@, pat@) == Some(i as int) && is_match_at(s@, pat@, i as int),
            None => first_match(s@, pat@) is None,
        },
{
    let n = s.len();
    let mut i: usize = 0;
    loop
        invariant
            i <= n,
            n == s@.len(),
            forall|j: int| 0 <= j < i ==> !is_match_at(s@, pat@, j),
        decreases n - i,
    {
        if matches_at(s, pat, i) {
            proof {
                lemma_first_match_some(s@, pat@, i as int);
            }
            return Some(i);
        }
        if i == n {
            proof {
                assert forall|j: int| !is_match_at(s@, pat@, j) by {
                    if j > n {
                        assert(j + pat@.len() > s@.len());
                    }
                }
                lemma_first_match_none(s@, pat@);
            }
            return None;
        }
        i += 1;
    }
}

/// Whether two strings hold the same characters.
pub fn str_eq(a: &str, b: &str) -> (r: bool)
    ensures
        r == (a@ == b@),
{
    let va = to_chars(a);
    let vb = to_chars(b);
    if va.len() != vb.len() {
        return false;
    }
    let n = va.len();
    let mut i: usize = 0;
    while i < n
        invariant
            va@ == a@,
            vb@ == b@,
            n == a@.len() == b@.len(),
            i <= n,
            forall|j: int| 0 <= j < i ==> a@[j] == b@[j],
        decreases n - i,
    {
        if va[i] != vb[i] {
            return false;
        }
        i += 1;
    }
    proof {
        assert(a@ =~= b@);
    }
    true
}

/// `s` with every trailing occurrence of the non-empty pattern `pat`
/// removed.
pub open spec fn strip_suffix_rep(s: Seq<char>, pat: Seq<char>) -> Seq<char>
    decreases s.len(),
{
    if pat.len() > 0 && s.len() >= pat.len() && s.subrange(s.len() - pat.len(), s.len() as int)
        == pat {
        strip_suffix_rep(s.take(s.len() - pat.len()), pat)
    } else {
        s
    }
}

/// End of the range of `s[from..to]` that remains after removing every
/// trailing occurrence of `pat`.
pub fn strip_suffix_rep_end(s: &[char], from: usize, to: usize, pat: &[char]) -> (r: usize)
    requires
        from <= to <= s@.len(),
        pat@.len() > 0,
    ensures
        from <= r <= to,
        s@.subrange(from as int, r as int) == strip_suffix_rep(
            s@.subrange(from as int, to as int),
            pat@,
        ),
{
    let pl = pat.len();
    let mut hi: usize = to;
    loop
        invariant
            pl == pat@.len(),
            pl >= 1,
            from <= hi <= to <= s@.len(),
            strip_suffix_rep(s@.subrange(from as int, hi as int), pat@) == strip_suffix_rep(
                s@.subrange(from as int, to as int),
                pat@,
            ),
        decreases hi,
    {
        let ghost cur = s@.subrange(from as int, hi as int);
        if hi - from >= pl && matches_at(s, pat, hi - pl) {
            proof {
                assert(cur.subrange(cur.len() - pat@.len(), cur.len() as int) =~= s@.subrange(
                    hi - pat@.len(),
                    hi as int,
                ));
                assert(cur.take(cur.len() - pat@.len()) =~= s@.subrange(
                    from as int,
                    hi - pat@.len(),
                ));
            }
            hi = hi - pl;
        } else {
            proof {
                if pat@.len() <= cur.len() {
                    assert(cur.subrange(cur.len() - pat@.len(), cur.len() as int) =~= s@.subrange(
                        hi - pat@.len(),
                        hi as int,
                    ));
                }
                assert(strip_suffix_rep(cur, pat@) == cur);
            }
            return hi;
        }
    }
}

/// `s` with every trailing occurrence of `c` removed.
pub open spec fn strip_trailing(s: Seq<char>, c: char) -> Seq<char>
    decreases s.len(),
{
    if s.len() == 0 || s.last() != c {
        s
    } else {
        strip_trailing(s.drop_last(), c)
    }
}

proof fn lemma_strip_trailing(s: Seq<char>, c: char, k: int)
    requires
        0 <= k <= s.len(),
        forall|j: int| s.len() - k <= j < s.len() ==> s[j] == c,
        k < s.len() ==> s[s.len() - k - 1] != c,
    ensures
        strip_trailing(s, c) == s.take(s.len() - k),
    decreases k,
{
    if k == 0 {
        assert(s.take(s.len() as int) =~= s);
    } else {
        assert(s.last() == c);
        let t = s.drop_last();
        assert(forall|j: int| t.len() - (k - 1) <= j < t.len() ==> t[j] == c);
        lemma_strip_trailing(t, c, k - 1);
        assert(t.take(t.len() - (k - 1)) =~= s.take(s.len() - k));
    }
}

/// End of the range of `s[from..to]` that remains after removing trailing
/// occurrences of `c`.
pub fn strip_trailing_end(s: &[char], from: usize, to: usize, c: char) -> (r: usize)
    requires
        from <= to <= s@.len(),
    ensures
        from <= r <= to,
        s@.subrange(from as int, r as int) == strip_trailing(
            s@.subrange(from as int, to as int),
            c,
        ),
{
    let ghost t = s@.subrange(from as int, to as int);
    let mut hi: usize = to;
    while hi > from && s[hi - 1] == c
        invariant
            from <= hi <= to <= s@.len(),
            forall|j: int| hi <= j < to ==> s@[j] == c,
        decreases hi,
    {
        hi -= 1;
    }
    proof {
        assert(forall|j: int| t.len() - (to - hi) <= j < t.len() ==> t[j] == c);
        lemma_strip_trailing(t, c, to - hi);
        assert(s@.subrange(from as int, hi as int) =~= t.take(t.len() - (to - hi)));
    }
    hi
}

} // verus!
