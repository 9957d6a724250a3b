use vstd::prelude::*;

verus! {

/// Whether `c` has the Unicode `White_Space` property.
pub open spec fn is_ws(c: char) -> bool {
    let u = c as u32;
    (0x9 <= u && u <= 0xd) || u == 0x20 || u == 0x85 || u == 0xa0 || u == 0x1680 || (0x2000 <= u
        && u <= 0x200a) || u == 0x2028 || u == 0x2029 || u == 0x202f || u == 0x205f || u == 0x3000
}

/// The words of `s`: its maximal runs of non-whitespace characters, left to right.
pub open spec fn words_of(s: Seq<char>) -> Seq<Seq<char>>
    decreases s.len(),
{
    if s.len() == 0 {
        seq![]
    } else {
        let p = s.drop_last();
        let c = s.last();
        let ws = words_of(p);
        if is_ws(c) {
            ws
        } else if p.len() > 0 && !is_ws(p.last()) {
            ws.update(ws.len() - 1, ws.last().push(c))
        } else {
            ws.push(seq![c])
        }
    }
}

/// Whether every character of `s` is whitespace.
pub open spec fn all_ws(s: Seq<char>) -> bool {
    forall|i: int| 0 <= i < s.len() ==> is_ws(#[trigger] s[i])
}

/// A text has no words exactly when it holds no character but whitespace.
pub proof fn lemma_no_words_iff_all_whitespace(s: Seq<char>)
    ensures
        words_of(s).len() == 0 <==> all_ws(s),
    decreases s.len(),
{
    if s.len() > 0 {
        let p = s.drop_last();
        lemma_no_words_iff_all_whitespace(p);
        assert(forall|i: int| 0 <= i < p.len() ==> p[i] == s[i]);
        if !all_ws(p) {
            let i = choose|i: int| 0 <= i < p.len() && !is_ws(p[i]);
            assert(!is_ws(s[i]));
        }
        if !is_ws(s.last()) {
            assert(!is_ws(s[s.len() - 1]));
        }
    }
}

/// Tells whether `c` is whitespace, as `char::is_whitespace` does.
pub fn is_whitespace(c: char) -> (r: bool)
    ensures
        r == is_ws(c),
{
    let u = c as u32;
    (0x9 <= u && u <= 0xd) || u == 0x20 || u == 0x85 || u == 0xa0 || u == 0x1680 || (0x2000 <= u
        && u <= 0x200a) || u == 0x2028 || u == 0x2029 || u == 0x202f || u == 0x205f || u == 0x3000
}

/// Where the words of `cs` stand: for each word, in order, the range `start..end` that holds it.
/// Ranges are non-empty and strictly increasing.
pub fn word_spans(cs: &Vec<char>) -> (r: Vec<(usize, usize)>)
    ensures
        r.len() == words_of(cs@).len(),
        forall|k: int|
            #![trigger r[k]]
            0 <= k < r.len() ==> r[k].0 < r[k].1 <= cs.len() && cs@.subrange(
                r[k].0 as int,
                r[k].1 as int,
            ) == words_of(cs@)[k],
        forall|k: int| 0 < k < r.len() ==> r[k - 1].1 < #[trigger] r[k].0,
{
    let n = cs.len();
    let mut spans: Vec<(usize, usize)> = Vec::new();
    let mut in_word = false;
    let mut start: usize = 0;
    let mut i: usize = 0;
    while i < n
        invariant
            n == cs.len(),
            i <= n,
            start <= i,
            in_word ==> i > 0 && !is_ws(cs@[i - 1]) && start < i,
            !in_word ==> i == 0 || is_ws(cs@[i - 1]),
            in_word ==> spans.len() + 1 == words_of(cs@.take(i as int)).len(),
            in_word ==> cs@.subrange(start as int, i as int) == words_of(cs@.take(i as int)).last(),
            !in_word ==> spans.len() == words_of(cs@.take(i as int)).len(),
            forall|k: int|
                #![trigger spans[k]]
                0 <= k < spans.len() ==> spans[k].0 < spans[k].1 <= i && cs@.subrange(
                    spans[k].0 as int,
                    spans[k].1 as int,
                ) == words_of(cs@.take(i as int))[k],
            forall|k: int| 0 < k < spans.len() ==> spans[k - 1].1 < #[trigger] spans[k].0,
            spans.len() > 0 ==> spans[spans.len() - 1].1 < i,
            in_word && spans.len() > 0 ==> spans[spans.len() - 1].1 < start,
        decreases n - i,
    {
        let c = cs[i];
        let ghost p = cs@.take(i as int);
        let ghost q = cs@.take(i + 1);
        assert(q.drop_last() == p);
        assert(q.last() == c);
        if is_whitespace(c) {
            assert(words_of(q) == words_of(p));
            if in_word {
                spans.push((start, i));
                in_word = false;
            }
        } else if in_word {
            assert(p.last() == cs@[i - 1]);
            assert(cs@.subrange(start as int, i + 1) == cs@.subrange(start as int, i as int).push(
                c,
            ));
            assert(forall|k: int| 0 <= k < spans.len() ==> words_of(q)[k] == words_of(p)[k]);
        } else {
            assert(p.len() > 0 ==> p.last() == cs@[i - 1]);
            assert(cs@.subrange(i as int, i + 1) == seq![c]);
            assert(words_of(q) == words_of(p).push(seq![c]));
            assert(forall|k: int| 0 <= k < spans.len() ==> words_of(q)[k] == words_of(p)[k]);
            start = i;
            in_word = true;
        }
        i = i + 1;
    }
    assert(cs@.take(n as int) == cs@);
    if in_word {
        spans.push((start, n));
    }
    spans
}

} // verus!
