//! Sets of numbers, held as intervals.

use vstd::prelude::*;

verus! {

/// The numbers from `begin` up to, but without, `end`.
#[derive(Clone, Copy, Debug, PartialEq, Eq, Structural, Hash)]
pub struct IntInterval {
    pub begin: usize,
    pub end: usize,
}

impl IntInterval {
    pub fn new(begin: usize, end: usize) -> (r: Self)
        ensures
            r == (IntInterval { begin, end }),
    {
        IntInterval { begin, end }
    }
}

/// `v` lies in one of `intervals`.
pub open spec fn covers(intervals: Seq<IntInterval>, v: int) -> bool {
    exists|i: int|
        0 <= i < intervals.len() && (#[trigger] intervals[i]).begin <= v < intervals[i].end
}

/// The intervals are in the order of their beginnings.
pub open spec fn sorted(intervals: Seq<IntInterval>) -> bool {
    forall|i: int, j: int|
        0 <= i <= j < intervals.len() ==> (#[trigger] intervals[i]).begin <= (
        #[trigger] intervals[j]).begin
}

/// No interval is empty, and each ends before the next begins, with a gap.
pub open spec fn normalized(intervals: Seq<IntInterval>) -> bool {
    &&& forall|i: int| 0 <= i < intervals.len()
        ==> (#[trigger] intervals[i]).begin < intervals[i].end
    &&& forall|i: int, j: int|
        0 <= i < j < intervals.len() ==> (#[trigger] intervals[i]).end < (
        #[trigger] intervals[j]).begin
}

/// A set of numbers. Its intervals may overlap until the set is normalized.
#[derive(Debug, PartialEq, Eq)]
pub struct IntervalSet {
    pub intervals: Vec<IntInterval>,
}

/// Puts `intervals` in the order of their beginnings.
fn sort_intervals(intervals: &mut Vec<IntInterval>)
    ensures
        sorted(final(intervals)@),
        final(intervals)@.len() == old(intervals)@.len(),
        forall|v: int| covers(final(intervals)@, v) == covers(old(intervals)@, v),
{
    let n = intervals.len();
    let mut i: usize = 1;
    while i < n
        invariant
            n == intervals@.len(),
            1 <= i,
            n > 0 ==> i <= n,
            forall|a: int, b: int|
                0 <= a <= b < i && b < n ==> (#[trigger] intervals@[a]).begin <= (
                #[trigger] intervals@[b]).begin,
            forall|v: int| covers(intervals@, v) == covers(old(intervals)@, v),
        decreases n - i,
    {
        let mut j = i;
        while j > 0 && intervals[j - 1].begin > intervals[j].begin
            invariant
                n == intervals@.len(),
                j <= i < n,
                forall|a: int, b: int|
                    0 <= a <= b <= i && a != j && b != j ==> (#[trigger] intervals@[a]).begin <= (
                    #[trigger] intervals@[b]).begin,
                forall|b: int|
                    j < b <= i ==> intervals@[j as int].begin <= (#[trigger] intervals@[b]).begin,
                forall|v: int| covers(intervals@, v) == covers(old(intervals)@, v),
            decreases j,
        {
            let ghost before = intervals@;
            let lower = intervals[j - 1];
            let upper = intervals[j];
            intervals.set(j - 1, upper);
            intervals.set(j, lower);
            proof {
                assert forall|v: int| covers(intervals@, v) == covers(before, v) by {
                    if covers(before, v) {
                        let k = choose|k: int|
                            0 <= k < before.len() && (#[trigger] before[k]).begin <= v
                                < before[k].end;
                        let k2 = if k == j {
                            j - 1
                        } else if k == j - 1 {
                            j as int
                        } else {
                            k
                        };
                        assert(intervals@[k2] == before[k]);
                    }
                    if covers(intervals@, v) {
                        let k = choose|k: int|
                            0 <= k < intervals@.len() && (#[trigger] intervals@[k]).begin <= v
                                < intervals@[k].end;
                        let k2 = if k == j {
                            j - 1
                        } else if k == j - 1 {
                            j as int
                        } else {
                            k
                        };
                        assert(before[k2] == intervals@[k]);
                    }
                }
            }
            j = j - 1;
        }
        i = i + 1;
    }
}

impl IntervalSet {
    /// Whether `v` is in the set.
    pub open spec fn contains(&self, v: int) -> bool {
        covers(self.intervals@, v)
    }

    /// The empty set.
    pub fn new() -> (r: Self)
        ensures
            r.intervals@ == Seq::<IntInterval>::empty(),
    {
        IntervalSet { intervals: Vec::new() }
    }

    /// Adds the numbers of `iset` to the set. The result may not be
    /// normalized.
    pub fn union(&mut self, iset: &IntervalSet)
        ensures
            final(self).intervals@ == old(self).intervals@ + iset.intervals@,
            forall|v: int| final(self).contains(v) == (old(self).contains(v) || iset.contains(v)),
    {
        let mut i: usize = 0;
        while i < iset.intervals.len()
            invariant
                i <= iset.intervals@.len(),
                self.intervals@ == old(self).intervals@ + iset.intervals@.take(i as int),
            decreases iset.intervals.len() - i,
        {
            self.intervals.push(iset.intervals[i]);
            i = i + 1;
            assert(self.intervals@ =~= old(self).intervals@ + iset.intervals@.take(i as int));
        }
        proof {
            assert(iset.intervals@.take(i as int) =~= iset.intervals@);
            let a = old(self).intervals@;
            let b = iset.intervals@;
            assert forall|v: int| covers(a + b, v) == (covers(a, v) || covers(b, v)) by {
                if covers(a, v) {
                    let k = choose|k: int| 0 <= k < a.len()
                        && (#[trigger] a[k]).begin <= v < a[k].end;
                    assert((a + b)[k] == a[k]);
                }
                if covers(b, v) {
                    let k = choose|k: int| 0 <= k < b.len()
                        && (#[trigger] b[k]).begin <= v < b[k].end;
                    assert((a + b)[a.len() + k] == b[k]);
                }
                if covers(a + b, v) {
                    let k = choose|k: int|
                        0 <= k < (a + b).len()
                            && (#[trigger] (a + b)[k]).begin <= v < (a + b)[k].end;
                    if k < a.len() {
                        assert(a[k] == (a + b)[k]);
                    } else {
                        assert(b[k - a.len()] == (a + b)[k]);
                    }
                }
            }
        }
    }

    /// Sorts, and collapses overlapping and adjacent intervals: the set
    /// holds the same numbers, in intervals that are apart.
    pub fn normalize(&mut self)
        ensures
            normalized(final(self).intervals@),
            forall|v: int| final(self).contains(v) == old(self).contains(v),
    {
        sort_intervals(&mut self.intervals);
        let ghost given = self.intervals@;
        let n = self.intervals.len();
        let mut out: Vec<IntInterval> = Vec::new();
        let mut cur = IntInterval { begin: 0, end: 0 };
        let mut i: usize = 0;
        while i < n
            invariant
                i <= n,
                n == given.len(),
                self.intervals@ == given,
                sorted(given),
                normalized(out@),
                cur.begin <= cur.end,
                cur.begin < cur.end ==> forall|k: int|
                    0 <= k < out@.len() ==> (#[trigger] out@[k]).end < cur.begin,
                cur.begin < cur.end ==> forall|k: int|
                    i <= k < n ==> cur.begin <= (#[trigger] given[k]).begin,
                cur.begin == cur.end ==> out@.len() == 0,
                forall|v: int|
                    #[trigger] covers(given.take(i as int), v) <==> (covers(out@, v) || (cur.begin
                        <= v && v < cur.end)),
            decreases n - i,
        {
            let x = self.intervals[i];
            let ghost seen = given.take(i as int);
            let ghost next = given.take(i + 1);
            proof {
                assert(next =~= seen.push(x));
                assert forall|v: int| covers(next, v)
                    <==> (covers(seen, v) || (x.begin <= v && v < x.end)) by {
                    if covers(seen, v) {
                        let k = choose|k: int|
                            0 <= k < seen.len() && (#[trigger] seen[k]).begin <= v < seen[k].end;
                        assert(next[k] == seen[k]);
                    }
                    if x.begin <= v < x.end {
                        assert(next[i as int] == x);
                    }
                    if covers(next, v) {
                        let k = choose|k: int|
                            0 <= k < next.len() && (#[trigger] next[k]).begin <= v < next[k].end;
                        if k < i {
                            assert(seen[k] == next[k]);
                        }
                    }
                }
                assert(forall|k: int| i < k < n ==> x.begin <= (#[trigger] given[k]).begin) by {
                    assert(given[i as int] == x);
                }
            }
            let ghost old_cur = cur;
            let ghost old_out = out@;
            if x.begin < x.end {
                if cur.begin == cur.end {
                    cur = x;
                } else if x.begin > cur.end {
                    out.push(cur);
                    proof {
                        let pushed = out@;
                        assert forall|v: int| covers(pushed, v)
                            <==> (covers(old_out, v) || (old_cur.begin <= v
                            && v < old_cur.end)) by {
                            if covers(old_out, v) {
                                let k = choose|k: int|
                                    0 <= k < old_out.len() && (#[trigger] old_out[k]).begin <= v
                                        < old_out[k].end;
                                assert(pushed[k] == old_out[k]);
                            }
                            if old_cur.begin <= v < old_cur.end {
                                assert(pushed[old_out.len() as int] == old_cur);
                            }
                            if covers(pushed, v) {
                                let k = choose|k: int|
                                    0 <= k < pushed.len() && (#[trigger] pushed[k]).begin <= v
                                        < pushed[k].end;
                                if k < old_out.len() {
                                    assert(old_out[k] == pushed[k]);
                                }
                            }
                        }
                    }
                    cur = x;
                } else if x.end > cur.end {
                    assert(given[i as int] == x);
                    cur = IntInterval { begin: cur.begin, end: x.end };
                } else {
                    assert(given[i as int] == x);
                }
            }
            assert forall|v: int| covers(next, v)
                <==> (covers(out@, v) || (cur.begin <= v && v < cur.end)) by {
                assert(covers(next, v) <==> (covers(seen, v) || (x.begin <= v && v < x.end)));
                assert(covers(seen, v)
                    <==> (covers(old_out, v) || (old_cur.begin <= v && v < old_cur.end)));
                if x.begin < x.end && old_cur.begin != old_cur.end && x.begin > old_cur.end {
                    assert(covers(out@, v) <==> (covers(old_out, v) || (old_cur.begin <= v && v
                        < old_cur.end)));
                } else {
                    assert(out@ == old_out);
                    if x.begin < x.end && old_cur.begin == old_cur.end {
                        assert(!covers(old_out, v));
                    }
                }
            }
            i = i + 1;
        }
        assert(given.take(n as int) =~= given);
        if cur.begin < cur.end {
            let ghost before = out@;
            out.push(cur);
            proof {
                let pushed = out@;
                assert forall|v: int| covers(pushed, v)
                    <==> (covers(before, v) || (cur.begin <= v && v < cur.end)) by {
                    if covers(before, v) {
                        let k = choose|k: int|
                            0 <= k < before.len() && (#[trigger] before[k]).begin <= v
                                < before[k].end;
                        assert(pushed[k] == before[k]);
                    }
                    if cur.begin <= v < cur.end {
                        assert(pushed[before.len() as int] == cur);
                    }
                    if covers(pushed, v) {
                        let k = choose|k: int|
                            0 <= k < pushed.len() && (#[trigger] pushed[k]).begin <= v
                                < pushed[k].end;
                        if k < before.len() {
                            assert(before[k] == pushed[k]);
                        }
                    }
                }
            }
        }
        self.intervals = out;
    }

    /// Whether `value` is in the set, which must be normalized.
    pub fn member(&self, value: usize) -> (b: bool)
        requires
            normalized(self.intervals@),
        ensures
            b == self.contains(value as int),
    {
        // The first interval that does not end at or before `value`.
        let mut lo: usize = 0;
        let mut hi: usize = self.intervals.len();
        while lo < hi
            invariant
                lo <= hi <= self.intervals@.len(),
                normalized(self.intervals@),
                forall|k: int| 0 <= k < lo ==> (#[trigger] self.intervals@[k]).end <= value,
                forall|k: int|
                    hi <= k < self.intervals@.len() ==> (#[trigger] self.intervals@[k]).end > value,
            decreases hi - lo,
        {
            let mid = lo + (hi - lo) / 2;
            if self.intervals[mid].end <= value {
                assert forall|k: int| 0 <= k < mid + 1 implies (#[trigger] self.intervals@[k]).end
                    <= value by {
                    if k < mid {
                        assert(self.intervals@[k].end < self.intervals@[mid as int].begin);
                    }
                }
                lo = mid + 1;
            } else {
                assert forall|k: int| mid <= k < self.intervals@.len() implies (
                #[trigger] self.intervals@[k]).end > value by {
                    if mid < k {
                        assert(self.intervals@[mid as int].end < self.intervals@[k].begin);
                    }
                }
                hi = mid;
            }
        }
        if lo < self.intervals.len() && self.intervals[lo].begin <= value {
            true
        } else {
            proof {
                if self.contains(value as int) {
                    let k = choose|k: int|
                        0 <= k < self.intervals@.len() && (#[trigger] self.intervals@[k]).begin
                            <= value < self.intervals@[k].end;
                    if k > lo {
                        assert(self.intervals@[lo as int].end < self.intervals@[k].begin);
                    }
                }
            }
            false
        }
    }

    /// Whether the set holds no interval.
    pub fn is_empty(&self) -> (b: bool)
        ensures
            b == (self.intervals@.len() == 0),
    {
        self.intervals.len() == 0
    }

    /// How many intervals the set holds.
    pub fn len(&self) -> (n: usize)
        ensures
            n == self.intervals@.len(),
    {
        self.intervals.len()
    }
}

impl Default for IntervalSet {
    fn default() -> (r: Self)
        ensures
            r.intervals@ == Seq::<IntInterval>::empty(),
    {
        IntervalSet { intervals: Vec::new() }
    }
}

} // verus!
