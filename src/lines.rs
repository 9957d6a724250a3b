use vstd::prelude::*;

verus! {

/// The pieces of `s` between its `'\n'` characters; there is always at least one.
pub open spec fn segments_of(s: Seq<char>) -> Seq<Seq<char>>
    decreases s.len(),
{
    if s.len() == 0 {
        seq![seq![]]
    } else {
        let segs = segments_of(s.drop_last());
        if s.last() == '\n' {
            segs.push(seq![])
        } else {
            segs.update(segs.len() - 1, segs.last().push(s.last()))
        }
    }
}

/// A line that ended in `"\r\n"` loses its `'\r'`.
pub open spec fn strip_cr(l: Seq<char>) -> Seq<char> {
    if l.len() > 0 && l.last() == '\r' {
        l.drop_last()
    } else {
        l
    }
}

/// The lines of `s`: each piece ended by `'\n'` (without a `'\r'` just before it), then the
/// piece after the last `'\n'` unless it is empty.
pub open spec fn lines_of(s: Seq<char>) -> Seq<Seq<char>> {
    let segs = segments_of(s);
    let ended = segs.drop_last().map_values(|l: Seq<char>| strip_cr(l));
    if segs.last().len() == 0 {
        ended
    } else {
        ended.push(segs.last())
    }
}


/// Where the lines of `cs` stand: for each line, in order, the range `start..end` that holds it.
pub fn line_spans(cs: &Vec<char>) -> (r: Vec<(usize, usize)>)
    ensures
        r.len() == lines_of(cs@).len(),
        forall|k: int|
            #![trigger r[k]]
            0 <= k < r.len() ==> r[k].0 <= r[k].1 <= cs.len() && cs@.subrange(
                r[k].0 as int,
                r[k].1 as int,
            ) == lines_of(cs@)[k],
{
    let n = cs.len();
    let mut spans: Vec<(usize, usize)> = Vec::new();
    let mut start: usize = 0;
    let mut i: usize = 0;
    while i < n
        invariant
            n == cs.len(),
            start <= i <= n,
            segments_of(cs@.take(i as int)).len() == spans.len() + 1,
            segments_of(cs@.take(i as int)).last() == cs@.subrange(start as int, i as int),
            forall|k: int|
                #![trigger spans[k]]
                0 <= k < spans.len() ==> spans[k].0 <= spans[k].1 <= i && cs@.subrange(
                    spans[k].0 as int,
                    spans[k].1 as int,
                ) == strip_cr(segments_of(cs@.take(i as int))[k]),
        decreases n - i,
    {
        let c = cs[i];
        let ghost p = cs@.take(i as int);
        let ghost q = cs@.take(i + 1);
        let ghost segs = segments_of(p);
        assert(q.drop_last() == p);
        assert(q.last() == c);
        if c == '\n' {
            let end = if i > start && cs[i - 1] == '\r' {
                i - 1
            } else {
                i
            };
            let ghost k0 = spans.len() as int;
            assert(segments_of(q) == segs.push(seq![]));
            assert(cs@.subrange(start as int, end as int) == strip_cr(segs[k0]));
            spans.push((start, end));
            assert(forall|k: int| 0 <= k < k0 ==> segments_of(q)[k] == segs[k]);
            start = i + 1;
        } else {
            assert(segments_of(q) == segs.update(segs.len() - 1, segs.last().push(c)));
            assert(cs@.subrange(start as int, i + 1) == cs@.subrange(start as int, i as int).push(
                c,
            ));
            assert(forall|k: int| 0 <= k < spans.len() ==> segments_of(q)[k] == segs[k]);
        }
        i = i + 1;
    }
    assert(cs@.take(n as int) == cs@);
    let ghost segs = segments_of(cs@);
    let ghost ended = segs.drop_last().map_values(|l: Seq<char>| strip_cr(l));
    assert(ended.len() == spans.len());
    if start < n {
        let ghost k0 = spans.len() as int;
        spans.push((start, n));
        assert(cs@.subrange(spans[k0].0 as int, spans[k0].1 as int) == lines_of(cs@)[k0]);
    }
    assert(forall|k: int| 0 <= k < ended.len() ==> lines_of(cs@)[k] == ended[k]);
    spans
}

} // verus!
