//! Searching a text for a pattern and cutting it where the pattern stands.

use crate::text::rows;
use vstd::prelude::*;

verus! {

/// Whether `pat` stands in `s` at index `i`.
pub open spec fn matches_at(s: Seq<char>, pat: Seq<char>, i: int) -> bool {
    0 <= i && i + pat.len() <= s.len() && s.subrange(i, i + pat.len()) == pat
}

/// The least index at or after `from` at which `pat` stands in `s`, if there
/// is one.
pub open spec fn first_match(s: Seq<char>, pat: Seq<char>, from: int) -> Option<int>
    decreases s.len() + 1 - from,
{
    if from < 0 || from + pat.len() > s.len() {
        None
    } else if matches_at(s, pat, from) {
        Some(from)
    } else {
        first_match(s, pat, from + 1)
    }
}

/// The pieces of `s` from index `from` on, cut at the occurrences of `pat`
/// that are found from left to right and do not overlap.
pub open spec fn split_from(s: Seq<char>, pat: Seq<char>, from: int) -> Seq<Seq<char>>
    decreases s.len() - from,
{
    match first_match(s, pat, from) {
        Some(i) if pat.len() > 0 && from <= i && i + pat.len() <= s.len() => seq![
            s.subrange(from, i),
        ] + split_from(s, pat, i + pat.len()),
        _ => seq![s.subrange(from, s.len() as int)],
    }
}

/// The pieces of `s` between the occurrences of `pat`. There is always at
/// least one piece; an empty `pat` cuts nowhere.
pub open spec fn split(s: Seq<char>, pat: Seq<char>) -> Seq<Seq<char>> {
    split_from(s, pat, 0)
}

/// How often `c` occurs in `s`.
pub open spec fn count(s: Seq<char>, c: char) -> nat
    decreases s.len(),
{
    if s.len() == 0 {
        0
    } else if s.last() == c {
        count(s.drop_last(), c) + 1
    } else {
        count(s.drop_last(), c)
    }
}

/// An index as a mathematical integer.
pub open spec fn index_of(r: Option<usize>) -> Option<int> {
    match r {
        Some(i) => Some(i as int),
        None => None,
    }
}

/// Whether `pat` stands in `s` at index `i`.
pub fn pattern_at(s: &[char], pat: &[char], i: usize) -> (b: bool)
    ensures
        b == matches_at(s@, pat@, i as int),
{
    if pat.len() > s.len() || i > s.len() - pat.len() {
        return false;
    }
    let mut k: usize = 0;
    while k < pat.len()
        invariant
            k <= pat.len(),
            i + pat.len() <= s.len(),
            forall|j: int| 0 <= j < k ==> s[i + j] == pat[j],
        decreases pat.len() - k,
    {
        if s[i + k] != pat[k] {
            assert(s@.subrange(i as int, i + pat.len())[k as int] != pat[k as int]);
            return false;
        }
        k += 1;
    }
    assert(s@.subrange(i as int, i + pat.len()) =~= pat@);
    true
}

/// Finds the first occurrence of `pat` in `s` at or after `from`.
pub fn find(s: &[char], pat: &[char], from: usize) -> (r: Option<usize>)
    ensures
        index_of(r) == first_match(s@, pat@, from as int),
{
    if pat.len() > s.len() {
        return None;
    }
    let last: usize = s.len() - pat.len();
    let mut i: usize = from;
    while i < last
        invariant
            from <= i,
            last == s.len() - pat.len(),
            first_match(s@, pat@, from as int) == first_match(s@, pat@, i as int),
        decreases last - i,
    {
        if pattern_at(s, pat, i) {
            return Some(i);
        }
        i += 1;
    }
    if i == last && pattern_at(s, pat, i) {
        Some(i)
    } else {
        assert(first_match(s@, pat@, i + 1) is None);
        None
    }
}

/// The characters of `s` from index `from` up to `to`.
pub fn copy_range(s: &[char], from: usize, to: usize) -> (out: Vec<char>)
    requires
        from <= to <= s.len(),
    ensures
        out@ == s@.subrange(from as int, to as int),
{
    let mut out: Vec<char> = Vec::new();
    let mut i: usize = from;
    while i < to
        invariant
            from <= i <= to,
            to <= s.len(),
            out@ == s@.subrange(from as int, i as int),
        decreases to - i,
    {
        out.push(s[i]);
        assert(s@.subrange(from as int, i + 1) =~= s@.subrange(from as int, i as int).push(
            s[i as int],
        ));
        i += 1;
    }
    out
}

/// Cuts `s` at the occurrences of `pat`.
pub fn split_at_pattern(s: &[char], pat: &[char]) -> (out: Vec<Vec<char>>)
    ensures
        rows(out@) == split(s@, pat@),
{
    let mut out: Vec<Vec<char>> = Vec::new();
    let mut start: usize = 0;
    loop
        invariant
            start <= s.len(),
            rows(out@) + split_from(s@, pat@, start as int) == split(s@, pat@),
        decreases s.len() - start,
    {
        let found = find(s, pat, start);
        proof {
            lemma_first_match(s@, pat@, start as int);
        }
        let ghost before = rows(out@);
        match found {
            Some(i) if pat.len() > 0 => {
                let piece = copy_range(s, start, i);
                out.push(piece);
                assert(rows(out@) =~= before + seq![piece@]);
                assert(rows(out@) + split_from(s@, pat@, i + pat.len()) =~= before + split_from(
                    s@,
                    pat@,
                    start as int,
                ));
                start = i + pat.len();
            },
            _ => {
                let piece = copy_range(s, start, s.len());
                out.push(piece);
                assert(rows(out@) =~= before + seq![piece@]);
                return out;
            },
        }
    }
}

/// Counts how often `c` occurs in `s`.
pub fn count_char(s: &[char], c: char) -> (n: usize)
    ensures
        n == count(s@, c),
{
    let mut n: usize = 0;
    let mut i: usize = 0;
    while i < s.len()
        invariant
            i <= s.len(),
            n <= i,
            n == count(s@.take(i as int), c),
        decreases s.len() - i,
    {
        assert(s@.take(i + 1).drop_last() =~= s@.take(i as int));
        if s[i] == c {
            n += 1;
        }
        i += 1;
    }
    assert(s@.take(i as int) =~= s@);
    n
}

/// What `first_match` finds is an occurrence, and the least one from `from`
/// on; where it finds none, there is none from `from` on.
pub proof fn lemma_first_match(s: Seq<char>, pat: Seq<char>, from: int)
    requires
        0 <= from,
    ensures
        match first_match(s, pat, from) {
            Some(i) => from <= i && matches_at(s, pat, i) && forall|j: int|
                from <= j < i ==> !matches_at(s, pat, j),
            None => forall|j: int| from <= j ==> !matches_at(s, pat, j),
        },
    decreases s.len() + 1 - from,
{
    if from + pat.len() <= s.len() && !matches_at(s, pat, from) {
        lemma_first_match(s, pat, from + 1);
    }
}

/// A split has at least one piece.
pub proof fn lemma_split_has_piece(s: Seq<char>, pat: Seq<char>)
    ensures
        split(s, pat).len() >= 1,
{
}

} // verus!
