//! Collapsing a sorted run of byte ranges into maximal groups of adjacent ranges.

use vstd::prelude::*;

verus! {

/// The ranges of `s` with every range that starts where the one before it ends merged
/// into it, in order.
pub open spec fn collapse_spec(s: Seq<(usize, usize)>) -> Seq<(usize, usize)>
    decreases s.len(),
{
    if s.len() == 0 {
        Seq::empty()
    } else {
        let c = collapse_spec(s.drop_last());
        let next = s.last();
        if c.len() > 0 && c.last().1 == next.0 {
            c.update(c.len() - 1, (c.last().0, next.1))
        } else {
            c.push(next)
        }
    }
}

/// Ranges that are not reversed and follow each other without overlap.
pub open spec fn sorted_ranges(s: Seq<(usize, usize)>) -> bool {
    &&& forall|i: int| 0 <= i < s.len() ==> (#[trigger] s[i]).0 <= s[i].1
    &&& forall|i: int| 0 <= i < s.len() - 1 ==> (#[trigger] s[i]).1 <= s[i + 1].0
}

/// Whether byte `b` lies in one of the ranges of `s`.
pub open spec fn covers(s: Seq<(usize, usize)>, b: int) -> bool {
    exists|i: int| 0 <= i < s.len() && (#[trigger] s[i]).0 <= b < s[i].1
}

/// Collapses adjacent ranges: a range that starts where the previous one ends is merged
/// into it.
pub fn collapse_ranges(ranges: &Vec<(usize, usize)>) -> (r: Vec<(usize, usize)>)
    ensures
        r@ == collapse_spec(ranges@),
{
    let mut out: Vec<(usize, usize)> = Vec::new();
    let mut i: usize = 0;
    while i < ranges.len()
        invariant
            i <= ranges.len(),
            out@ == collapse_spec(ranges@.take(i as int)),
        decreases ranges.len() - i,
    {
        let next = ranges[i];
        assert(ranges@.take(i + 1).drop_last() =~= ranges@.take(i as int));
        assert(ranges@.take(i + 1).last() == next);
        if out.len() > 0 && out[out.len() - 1].1 == next.0 {
            let last = out.len() - 1;
            let first = out[last].0;
            out.set(last, (first, next.1));
        } else {
            out.push(next);
        }
        i = i + 1;
    }
    assert(ranges@.take(ranges.len() as int) =~= ranges@);
    out
}

/// Dropping the last range keeps ranges sorted.
proof fn lemma_sorted_prefix(s: Seq<(usize, usize)>)
    requires
        sorted_ranges(s),
        s.len() > 0,
    ensures
        sorted_ranges(s.drop_last()),
{
    let t = s.drop_last();
    assert forall|i: int| 0 <= i < t.len() - 1 implies (#[trigger] t[i]).1 <= t[i + 1].0 by {
        assert(t[i] == s[i] && t[i + 1] == s[i + 1]);
    }
}

/// Collapsed sorted ranges are sorted, with gaps between them, and end where the input ends.
proof fn lemma_collapse_shape(s: Seq<(usize, usize)>)
    requires
        sorted_ranges(s),
    ensures
        sorted_ranges(collapse_spec(s)),
        forall|k: int| 0 <= k < collapse_spec(s).len() - 1 ==> (#[trigger] collapse_spec(s)[k]).1
            < collapse_spec(s)[k + 1].0,
        s.len() > 0 ==> collapse_spec(s).len() > 0 && collapse_spec(s).last().1 == s.last().1,
        collapse_spec(s).len() <= s.len(),
    decreases s.len(),
{
    if s.len() > 0 {
        let t = s.drop_last();
        lemma_sorted_prefix(s);
        lemma_collapse_shape(t);
        let c = collapse_spec(t);
        let r = collapse_spec(s);
        if t.len() > 0 {
            assert(t.last() == s[s.len() - 2]);
        }
        if c.len() > 0 && c.last().1 == s.last().0 {
            assert forall|k: int| 0 <= k < r.len() - 1 implies (#[trigger] r[k]).1 < r[k + 1].0 by {
                assert(r[k] == c[k]);
                if k + 1 < r.len() - 1 {
                    assert(r[k + 1] == c[k + 1]);
                }
            }
            assert forall|k: int| 0 <= k < r.len() implies (#[trigger] r[k]).0 <= r[k].1 by {
                if k < r.len() - 1 {
                    assert(r[k] == c[k]);
                }
            }
        } else {
            assert forall|k: int| 0 <= k < r.len() - 1 implies (#[trigger] r[k]).1 < r[k + 1].0 by {
                assert(r[k] == c[k]);
                if k + 1 < r.len() - 1 {
                    assert(r[k + 1] == c[k + 1]);
                }
            }
            assert forall|k: int| 0 <= k < r.len() implies (#[trigger] r[k]).0 <= r[k].1 by {
                if k < r.len() - 1 {
                    assert(r[k] == c[k]);
                }
            }
        }
    }
}

/// Collapsing sorted ranges keeps the bytes they cover.
proof fn lemma_collapse_covers(s: Seq<(usize, usize)>, b: int)
    requires
        sorted_ranges(s),
    ensures
        covers(s, b) <==> covers(collapse_spec(s), b),
    decreases s.len(),
{
    if s.len() > 0 {
        let t = s.drop_last();
        lemma_sorted_prefix(s);
        lemma_collapse_shape(t);
        lemma_collapse_covers(t, b);
        let c = collapse_spec(t);
        let r = collapse_spec(s);
        let next = s.last();
        if covers(s, b) {
            let i = choose|i: int| 0 <= i < s.len() && (#[trigger] s[i]).0 <= b < s[i].1;
            if i == s.len() - 1 {
                assert(r[r.len() - 1].0 <= b < r[r.len() - 1].1);
            } else {
                assert(t[i] == s[i]);
                assert(covers(t, b));
                let k = choose|k: int| 0 <= k < c.len() && (#[trigger] c[k]).0 <= b < c[k].1;
                assert(r[k].0 <= b < r[k].1);
            }
        }
        if covers(r, b) {
            let k = choose|k: int| 0 <= k < r.len() && (#[trigger] r[k]).0 <= b < r[k].1;
            if k < c.len() && (k < c.len() - 1 || b < c[k].1) {
                assert(c[k].0 <= b < c[k].1);
                assert(covers(c, b));
                let i = choose|i: int| 0 <= i < t.len() && (#[trigger] t[i]).0 <= b < t[i].1;
                assert(s[i] == t[i]);
            } else {
                assert(s[s.len() - 1].0 <= b < s[s.len() - 1].1);
            }
        }
    }
}

/// Each collapsed range starts where an input range starts and ends where one ends.
proof fn lemma_collapse_ends(s: Seq<(usize, usize)>)
    ensures
        forall|k: int| 0 <= k < collapse_spec(s).len() ==> exists|i: int, j: int| 0 <= i <= j < s.len()
            && (#[trigger] collapse_spec(s)[k]).0 == s[i].0 && collapse_spec(s)[k].1 == s[j].1,
    decreases s.len(),
{
    if s.len() > 0 {
        let t = s.drop_last();
        lemma_collapse_ends(t);
        let c = collapse_spec(t);
        let r = collapse_spec(s);
        let n = s.len() - 1;
        assert forall|k: int| 0 <= k < r.len() implies exists|i: int, j: int| 0 <= i <= j < s.len()
            && (#[trigger] r[k]).0 == s[i].0 && r[k].1 == s[j].1 by {
            if k < c.len() {
                let (i, j) = choose|i: int, j: int| 0 <= i <= j < t.len() && (#[trigger] c[k]).0 == t[i].0 && c[k].1 == t[j].1;
                assert(s[i] == t[i] && s[j] == t[j]);
                if k == c.len() - 1 && c.last().1 == s.last().0 {
                    assert(r[k].0 == s[i].0 && r[k].1 == s[n].1);
                } else {
                    assert(r[k] == c[k]);
                }
            } else {
                assert(r[k] == s[n]);
            }
        }
    }
}

/// Collapsing sorted ranges gives sorted ranges that cover the same bytes, each
/// beginning where an input range begins and ending where one ends, and no two of
/// them adjacent: the maximal adjacency-merged intervals of the input.
pub proof fn lemma_collapse_partitions(s: Seq<(usize, usize)>)
    requires
        sorted_ranges(s),
    ensures
        sorted_ranges(collapse_spec(s)),
        forall|k: int| 0 <= k < collapse_spec(s).len() - 1 ==> (#[trigger] collapse_spec(s)[k]).1
            < collapse_spec(s)[k + 1].0,
        forall|b: int| covers(s, b) <==> covers(collapse_spec(s), b),
        forall|k: int| 0 <= k < collapse_spec(s).len() ==> exists|i: int, j: int| 0 <= i <= j < s.len()
            && (#[trigger] collapse_spec(s)[k]).0 == s[i].0 && collapse_spec(s)[k].1 == s[j].1,
{
    lemma_collapse_shape(s);
    lemma_collapse_ends(s);
    assert forall|b: int| covers(s, b) <==> covers(collapse_spec(s), b) by {
        lemma_collapse_covers(s, b);
    }
}

} // verus!

verus! {

/// Collapsed ranges stay within whatever bounds the input ranges keep.
pub proof fn lemma_collapse_bounds(s: Seq<(usize, usize)>, n: nat)
    requires
        forall|i: int| 0 <= i < s.len() ==> (#[trigger] s[i]).0 <= s[i].1 <= n,
    ensures
        forall|k: int| 0 <= k < collapse_spec(s).len() ==> (#[trigger] collapse_spec(s)[k]).0
            <= collapse_spec(s)[k].1 <= n,
    decreases s.len(),
{
    if s.len() > 0 {
        let t = s.drop_last();
        assert forall|i: int| 0 <= i < t.len() implies (#[trigger] t[i]).0 <= t[i].1 <= n by {
            assert(t[i] == s[i]);
        }
        lemma_collapse_bounds(t, n);
        let c = collapse_spec(t);
        let r = collapse_spec(s);
        assert(s.last() == s[s.len() - 1]);
        assert forall|k: int| 0 <= k < r.len() implies (#[trigger] r[k]).0 <= r[k].1 <= n by {
            if k < c.len() {
                assert(c[k].0 <= c[k].1);
            }
        }
    }
}

} // verus!
