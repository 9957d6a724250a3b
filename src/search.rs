use vstd::prelude::*;

use crate::lines::{line_spans, lines_of};
use crate::text::{chars_of, lower_of, lowercase, substring};

verus! {

/// Whether `needle` occurs in `hay` as a contiguous run.
pub open spec fn is_infix(needle: Seq<char>, hay: Seq<char>) -> bool {
    exists|i: int|
        0 <= i && i + needle.len() <= hay.len() && #[trigger] hay.subrange(i, i + needle.len())
            == needle
}

/// The lines of `ls` whose lowercase form holds `lq`, each with its 1-based number, in order.
pub open spec fn matches_of(ls: Seq<Seq<char>>, lq: Seq<char>) -> Seq<(int, Seq<char>)>
    decreases ls.len(),
{
    if ls.len() == 0 {
        seq![]
    } else {
        let prev = matches_of(ls.drop_last(), lq);
        if is_infix(lq, lower_of(ls.last())) {
            prev.push((ls.len() as int, ls.last()))
        } else {
            prev
        }
    }
}

/// The numbered lines of `content` that hold `target`, ignoring case.
pub open spec fn search_of(content: Seq<char>, target: Seq<char>) -> Seq<(int, Seq<char>)> {
    matches_of(lines_of(content), lower_of(target))
}

/// A match as mathematical values.
pub open spec fn match_view(m: (usize, String)) -> (int, Seq<char>) {
    (m.0 as int, m.1@)
}

/// Whether `needle` occurs in `hay` starting at `i`.
fn occurs_at(hay: &Vec<char>, needle: &Vec<char>, i: usize) -> (r: bool)
    requires
        i + needle.len() <= hay.len(),
    ensures
        r == (hay@.subrange(i as int, i + needle.len()) == needle@),
{
    let mut j: usize = 0;
    while j < needle.len()
        invariant
            i + needle.len() <= hay.len(),
            j <= needle.len(),
            forall|m: int| 0 <= m < j ==> hay@[i + m] == needle@[m],
        decreases needle.len() - j,
    {
        if hay[i + j] != needle[j] {
            assert(hay@.subrange(i as int, i + needle.len())[j as int] != needle@[j as int]);
            return false;
        }
        j = j + 1;
    }
    assert(hay@.subrange(i as int, i + needle.len()) == needle@);
    true
}

/// Whether `needle` occurs in `hay` as a contiguous run; the empty needle occurs everywhere.
pub fn contains_chars(hay: &Vec<char>, needle: &Vec<char>) -> (r: bool)
    ensures
        r == is_infix(needle@, hay@),
{
    if needle.len() > hay.len() {
        return false;
    }
    let last = hay.len() - needle.len();
    let mut i: usize = 0;
    loop
        invariant
            last == hay.len() - needle.len(),
            i <= last,
            forall|m: int|
                0 <= m < i ==> #[trigger] hay@.subrange(m, m + needle.len()) != needle@,
        decreases last - i,
    {
        if occurs_at(hay, needle, i) {
            return true;
        }
        if i == last {
            return false;
        }
        i = i + 1;
    }
}

/// Whether the lowercase line `lowered_line` holds the lowercase query `lowered_query`.
pub fn line_matches(lowered_line: &str, lowered_query: &str) -> (r: bool)
    ensures
        r == is_infix(lowered_query@, lowered_line@),
{
    let hay = chars_of(lowered_line);
    let needle = chars_of(lowered_query);
    contains_chars(&hay, &needle)
}

/// Each match names its line by number, numbers rise strictly, and the text is that line's.
pub proof fn lemma_matches_numbered(ls: Seq<Seq<char>>, lq: Seq<char>)
    ensures
        forall|i: int|
            #![trigger matches_of(ls, lq)[i]]
            0 <= i < matches_of(ls, lq).len() ==> 1 <= matches_of(ls, lq)[i].0 <= ls.len()
                && matches_of(ls, lq)[i].1 == ls[matches_of(ls, lq)[i].0 - 1],
        forall|i: int, j: int|
            0 <= i < j < matches_of(ls, lq).len() ==> #[trigger] matches_of(ls, lq)[i].0
                < #[trigger] matches_of(ls, lq)[j].0,
    decreases ls.len(),
{
    if ls.len() > 0 {
        let p = ls.drop_last();
        lemma_matches_numbered(p, lq);
        let mp = matches_of(p, lq);
        let m = matches_of(ls, lq);
        assert(forall|n: int| 0 <= n < p.len() ==> p[n] == ls[n]);
        assert(forall|i: int| 0 <= i < mp.len() ==> #[trigger] m[i] == mp[i]);
        assert forall|i: int, j: int| 0 <= i < j < m.len() implies #[trigger] m[i].0
            < #[trigger] m[j].0 by {
            assert(m[i] == mp[i]);
            if j < mp.len() {
                assert(m[j] == mp[j]);
            }
        }
    }
}

/// The empty query matches every line.
pub proof fn lemma_empty_query_matches_all(ls: Seq<Seq<char>>)
    ensures
        matches_of(ls, Seq::<char>::empty()).len() == ls.len(),
        forall|i: int|
            0 <= i < ls.len() ==> #[trigger] matches_of(ls, Seq::<char>::empty())[i] == (
                i + 1,
                ls[i],
            ),
    decreases ls.len(),
{
    if ls.len() > 0 {
        let p = ls.drop_last();
        lemma_empty_query_matches_all(p);
        let l = lower_of(ls.last());
        let e = Seq::<char>::empty();
        assert(l.subrange(0, 0 + e.len() as int) == e);
        assert(is_infix(e, l));
        assert(forall|i: int| 0 <= i < p.len() ==> #[trigger] matches_of(ls, e)[i] == matches_of(
            p,
            e,
        )[i]);
    }
}

/// The lines of `content` that hold `target`, ignoring case, each with its 1-based number, in
/// the order of the text.
pub fn search_word(content: &str, target: &str) -> (r: Vec<(usize, String)>)
    ensures
        r@.map_values(|m: (usize, String)| match_view(m)) == search_of(content@, target@),
        forall|i: int, j: int| 0 <= i < j < r.len() ==> #[trigger] r[i].0 < #[trigger] r[j].0,
        forall|i: int|
            #![trigger r[i]]
            0 <= i < r.len() ==> 1 <= r[i].0 <= lines_of(content@).len() && r[i].1@ == lines_of(
                content@,
            )[r[i].0 - 1],
        target@.len() == 0 ==> r.len() == lines_of(content@).len() && forall|i: int|
            0 <= i < r.len() ==> (#[trigger] r[i]).0 == i + 1 && r[i].1@ == lines_of(content@)[i],
{
    let cs = chars_of(content);
    let spans = line_spans(&cs);
    let ghost ls = lines_of(cs@);
    let query = lowercase(target);
    let ghost lq = lower_of(target@);
    let mut r: Vec<(usize, String)> = Vec::new();
    let mut k: usize = 0;
    while k < spans.len()
        invariant
            spans.len() == ls.len(),
            ls == lines_of(cs@),
            forall|j: int|
                #![trigger spans[j]]
                0 <= j < spans.len() ==> spans[j].0 <= spans[j].1 <= cs.len() && cs@.subrange(
                    spans[j].0 as int,
                    spans[j].1 as int,
                ) == ls[j],
            query@ == lq,
            k <= spans.len(),
            r@.map_values(|m: (usize, String)| match_view(m)) == matches_of(ls.take(k as int), lq),
        decreases spans.len() - k,
    {
        let (s, e) = spans[k];
        let line = substring(&cs, s, e);
        let lowered = lowercase(line.as_str());
        let ghost t = ls.take(k + 1);
        assert(t.drop_last() == ls.take(k as int));
        assert(t.last() == ls[k as int]);
        if line_matches(lowered.as_str(), query.as_str()) {
            r.push((k + 1, line));
        }
        assert(r@.map_values(|m: (usize, String)| match_view(m)) == matches_of(t, lq));
        k = k + 1;
    }
    assert(ls.take(spans.len() as int) == ls);
    proof {
        let ms = matches_of(ls, lq);
        let rv = r@.map_values(|m: (usize, String)| match_view(m));
        assert(forall|i: int| 0 <= i < r.len() ==> #[trigger] rv[i] == match_view(r[i]));
        lemma_matches_numbered(ls, lq);
        assert(cs@ == content@);
        assert forall|i: int| 0 <= i < r.len() implies 1 <= (#[trigger] r[i]).0 <= ls.len()
            && r[i].1@ == ls[r[i].0 - 1] by {
            assert(rv[i] == ms[i]);
        }
        assert forall|i: int, j: int| 0 <= i < j < r.len() implies #[trigger] r[i].0
            < #[trigger] r[j].0 by {
            assert(rv[i] == ms[i]);
            assert(rv[j] == ms[j]);
        }
        if target@.len() == 0 {
            assert(lq == Seq::<char>::empty());
            lemma_empty_query_matches_all(ls);
            assert forall|i: int| 0 <= i < r.len() implies (#[trigger] r[i]).0 == i + 1
                && r[i].1@ == ls[i] by {
                assert(rv[i] == ms[i]);
            }
        }
    }
    r
}

/// Two results of `search_word` on the same text and query are equal.
pub proof fn lemma_search_deterministic(
    a: Vec<(usize, String)>,
    b: Vec<(usize, String)>,
    content: Seq<char>,
    target: Seq<char>,
)
    requires
        a@.map_values(|m: (usize, String)| match_view(m)) == search_of(content, target),
        b@.map_values(|m: (usize, String)| match_view(m)) == search_of(content, target),
    ensures
        a.len() == b.len(),
        forall|i: int| #![trigger a[i]] 0 <= i < a.len() ==> a[i].0 == b[i].0 && a[i].1@ == b[i].1@,
{
    let av = a@.map_values(|m: (usize, String)| match_view(m));
    let bv = b@.map_values(|m: (usize, String)| match_view(m));
    assert(av.len() == a.len() && bv.len() == b.len());
    assert forall|i: int| #![trigger a[i]] 0 <= i < a.len() implies a[i].0 == b[i].0 && a[i].1@
        == b[i].1@ by {
        assert(av[i] == match_view(a[i]) && bv[i] == match_view(b[i]));
    }
}

} // verus!
