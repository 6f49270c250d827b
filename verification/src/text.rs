//! Whitespace: the words of a text, and the text normalized.

use vstd::prelude::*;

verus! {

/// The characters that count as whitespace: the code points that Unicode gives
/// the property `White_Space`.
pub open spec fn is_space(c: char) -> bool {
    let n = c as u32;
    ||| 0x09 <= n <= 0x0D
    ||| n == 0x20
    ||| n == 0x85
    ||| n == 0xA0
    ||| n == 0x1680
    ||| 0x2000 <= n <= 0x200A
    ||| n == 0x2028
    ||| n == 0x2029
    ||| n == 0x202F
    ||| n == 0x205F
    ||| n == 0x3000
}

/// Whether `s` holds nothing but whitespace.
pub open spec fn is_blank(s: Seq<char>) -> bool {
    forall|i: int| 0 <= i < s.len() ==> is_space(#[trigger] s[i])
}

/// The words of `s`: its maximal runs of characters that are not whitespace,
/// from left to right.
pub open spec fn words(s: Seq<char>) -> Seq<Seq<char>>
    decreases s.len(),
{
    if s.len() == 0 {
        Seq::empty()
    } else {
        let before = words(s.drop_last());
        if is_space(s.last()) {
            before
        } else if s.len() >= 2 && !is_space(s[s.len() - 2]) && before.len() > 0 {
            before.drop_last().push(before.last().push(s.last()))
        } else {
            before.push(seq![s.last()])
        }
    }
}

/// The words `ws` written one after another with a single space between
/// neighbours.
pub open spec fn join(ws: Seq<Seq<char>>) -> Seq<char>
    decreases ws.len(),
{
    if ws.len() == 0 {
        Seq::empty()
    } else if ws.len() == 1 {
        ws[0]
    } else {
        join(ws.drop_last()).push(' ') + ws.last()
    }
}

/// `s` without leading and trailing whitespace and with every run of
/// whitespace inside it replaced by one space.
pub open spec fn normalize(s: Seq<char>) -> Seq<char> {
    join(words(s))
}

/// A word in the strict sense: not empty and free of whitespace.
pub open spec fn is_word(w: Seq<char>) -> bool {
    w.len() > 0 && forall|i: int| 0 <= i < w.len() ==> !is_space(#[trigger] w[i])
}

/// Every element of `ws` is a word in the strict sense.
pub open spec fn all_words(ws: Seq<Seq<char>>) -> bool {
    forall|k: int| 0 <= k < ws.len() ==> is_word(#[trigger] ws[k])
}

/// The views of a list of character vectors, one sequence for each.
pub open spec fn rows(v: Seq<Vec<char>>) -> Seq<Seq<char>> {
    v.map_values(|w: Vec<char>| w@)
}

/// Whether `c` is whitespace.
pub fn is_whitespace(c: char) -> (b: bool)
    ensures
        b == is_space(c),
{
    let n: u32 = c as u32;
    (0x09 <= n && n <= 0x0D) || n == 0x20 || n == 0x85 || n == 0xA0 || n == 0x1680 || (0x2000 <= n
        && n <= 0x200A) || n == 0x2028 || n == 0x2029 || n == 0x202F || n == 0x205F || n
        == 0x3000
}

/// Whether `s` holds nothing but whitespace.
pub fn is_blank_chars(s: &[char]) -> (b: bool)
    ensures
        b == is_blank(s@),
{
    let mut i: usize = 0;
    while i < s.len()
        invariant
            i <= s.len(),
            forall|j: int| 0 <= j < i ==> is_space(#[trigger] s@[j]),
        decreases s.len() - i,
    {
        if !is_whitespace(s[i]) {
            return false;
        }
        i += 1;
    }
    true
}

/// Splits `s` at whitespace into its words.
pub fn split_words(s: &[char]) -> (out: Vec<Vec<char>>)
    ensures
        rows(out@) == words(s@),
{
    let mut out: Vec<Vec<char>> = Vec::new();
    let mut cur: Vec<char> = Vec::new();
    let mut i: usize = 0;
    while i < s.len()
        invariant
            i <= s.len(),
            cur.len() == 0 ==> rows(out@) == words(s@.take(i as int)) && (i > 0 ==> is_space(
                s[i - 1],
            )),
            cur.len() > 0 ==> rows(out@).push(cur@) == words(s@.take(i as int)) && i > 0
                && !is_space(s[i - 1]),
        decreases s.len() - i,
    {
        let c = s[i];
        proof {
            let p = s@.take(i + 1);
            assert(p.drop_last() =~= s@.take(i as int));
            assert(p.last() == c);
            assert(i > 0 ==> p[p.len() - 2] == s[i - 1]);
        }
        if is_whitespace(c) {
            if cur.len() > 0 {
                proof {
                    assert(rows(out@.push(cur)) =~= rows(out@).push(cur@));
                }
                out.push(cur);
                cur = Vec::new();
            }
        } else {
            proof {
                if cur.len() > 0 {
                    let before = words(s@.take(i as int));
                    assert(before.drop_last() =~= rows(out@));
                    assert(before.last() == cur@);
                } else {
                    assert(seq![c] =~= cur@.push(c));
                }
            }
            cur.push(c);
        }
        i += 1;
    }
    assert(s@.take(i as int) =~= s@);
    if cur.len() > 0 {
        proof {
            assert(rows(out@.push(cur)) =~= rows(out@).push(cur@));
        }
        out.push(cur);
    }
    out
}

/// Appends the characters of `src` to `out`.
pub fn append_chars(out: &mut Vec<char>, src: &[char])
    ensures
        final(out)@ == old(out)@ + src@,
{
    let mut i: usize = 0;
    while i < src.len()
        invariant
            i <= src.len(),
            out@ == old(out)@ + src@.take(i as int),
        decreases src.len() - i,
    {
        out.push(src[i]);
        assert(src@.take(i + 1) =~= src@.take(i as int).push(src[i as int]));
        i += 1;
    }
    assert(src@.take(i as int) =~= src@);
}

/// Writes the words `ws` one after another with a single space between
/// neighbours.
pub fn join_words(ws: &Vec<Vec<char>>) -> (out: Vec<char>)
    ensures
        out@ == join(rows(ws@)),
{
    let mut out: Vec<char> = Vec::new();
    let mut k: usize = 0;
    while k < ws.len()
        invariant
            k <= ws.len(),
            out@ == join(rows(ws@).take(k as int)),
        decreases ws.len() - k,
    {
        proof {
            let next = rows(ws@).take(k + 1);
            assert(next.drop_last() =~= rows(ws@).take(k as int));
            assert(next.last() == ws[k as int]@);
        }
        if k > 0 {
            out.push(' ');
        }
        append_chars(&mut out, ws[k].as_slice());
        k += 1;
    }
    assert(rows(ws@).take(k as int) =~= rows(ws@));
    out
}

/// Trims `s` and collapses every run of whitespace inside it to one space.
pub fn normalize_chars(s: &[char]) -> (out: Vec<char>)
    ensures
        out@ == normalize(s@),
        normalize(out@) == out@,
{
    proof {
        lemma_normalize_idempotent(s@);
    }
    let ws = split_words(s);
    join_words(&ws)
}

/// What `words` yields are words in the strict sense: none is empty and none
/// holds whitespace.
pub proof fn lemma_words_are_words(s: Seq<char>)
    ensures
        all_words(words(s)),
    decreases s.len(),
{
    if s.len() > 0 {
        lemma_words_are_words(s.drop_last());
    }
}

/// A word that follows whitespace, or starts the text, is a word of its own.
pub proof fn lemma_words_append_word(a: Seq<char>, w: Seq<char>)
    requires
        is_word(w),
        a.len() == 0 || is_space(a.last()),
    ensures
        words(a + w) == words(a).push(w),
    decreases w.len(),
{
    let s = a + w;
    if w.len() == 1 {
        assert(s.drop_last() =~= a);
        assert(seq![s.last()] =~= w);
    } else {
        let v = w.drop_last();
        assert(is_word(v)) by {
            assert forall|i: int| 0 <= i < v.len() implies !is_space(#[trigger] v[i]) by {
                assert(v[i] == w[i]);
            }
        }
        lemma_words_append_word(a, v);
        assert(s.drop_last() =~= a + v);
        assert(s[s.len() - 2] == w[w.len() - 2]);
        let before = words(a + v);
        assert(before.drop_last() =~= words(a));
        assert(before.last().push(s.last()) =~= w);
    }
}

/// Splitting joined words gives the words back.
pub proof fn lemma_words_of_join(ws: Seq<Seq<char>>)
    requires
        all_words(ws),
    ensures
        words(join(ws)) == ws,
    decreases ws.len(),
{
    if ws.len() == 0 {
        assert(words(join(ws)) =~= ws);
    } else if ws.len() == 1 {
        let e = Seq::<char>::empty();
        lemma_words_append_word(e, ws[0]);
        assert(e + ws[0] =~= ws[0]);
        assert(words(e).push(ws[0]) =~= ws);
    } else {
        let init = ws.drop_last();
        assert(all_words(init)) by {
            assert forall|k: int| 0 <= k < init.len() implies is_word(#[trigger] init[k]) by {
                assert(init[k] == ws[k]);
            }
        }
        lemma_words_of_join(init);
        let a = join(init).push(' ');
        assert(a.drop_last() =~= join(init));
        lemma_words_append_word(a, ws.last());
        assert(init.push(ws.last()) =~= ws);
    }
}

/// A text has no words exactly if it holds nothing but whitespace, and
/// exactly then nothing is left of it after normalization.
pub proof fn lemma_blank(s: Seq<char>)
    ensures
        is_blank(s) <==> words(s).len() == 0,
        is_blank(s) <==> normalize(s).len() == 0,
    decreases s.len(),
{
    if s.len() > 0 {
        let init = s.drop_last();
        lemma_blank(init);
        if is_space(s.last()) {
            assert(is_blank(s) <==> is_blank(init)) by {
                if is_blank(init) {
                    assert forall|i: int| 0 <= i < s.len() implies is_space(#[trigger] s[i]) by {
                        if i < init.len() {
                            assert(init[i] == s[i]);
                        }
                    }
                }
                if is_blank(s) {
                    assert forall|i: int| 0 <= i < init.len() implies is_space(
                        #[trigger] init[i],
                    ) by {
                        assert(init[i] == s[i]);
                    }
                }
            }
        } else {
            assert(!is_space(s[s.len() - 1]));
        }
    }
    lemma_words_are_words(s);
    let ws = words(s);
    if ws.len() > 0 {
        assert(is_word(ws[ws.len() - 1]));
    }
}

/// The words of a text survive normalization.
pub proof fn lemma_words_of_normalize(s: Seq<char>)
    ensures
        words(normalize(s)) == words(s),
{
    lemma_words_are_words(s);
    lemma_words_of_join(words(s));
}

/// Normalizing twice gives the same as normalizing once.
pub proof fn lemma_normalize_idempotent(s: Seq<char>)
    ensures
        normalize(normalize(s)) == normalize(s),
{
    lemma_words_of_normalize(s);
}

} // verus!
