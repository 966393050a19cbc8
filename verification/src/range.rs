//! Contiguous ranges of periods of one resolution kind: construction from
//! bounds or raw index sets, intersection and union, containment across
//! kinds, and rescaling to other kinds.

use vstd::prelude::*;

use crate::calendar::{self, Date};
use crate::{
    DateResolution, FromMonotonic, FromTimestamp, LongerThan, LongerThanOrEqual, Monotonic,
    SubDateResolution, TimeResolution,
};

verus! {

/// How one range relates to another.
#[derive(Clone, Copy, Debug, PartialEq, Eq)]
pub enum TimeRangeComparison {
    Superset,
    Subset,
    Earlier,
    Later,
}

/// A contiguous, non-empty run of periods of one resolution kind: the
/// period `start` and the `len - 1` periods after it.
#[derive(Copy, Debug, PartialEq, Eq, Hash)]
pub struct TimeRange<P: TimeResolution> {
    pub start: P,
    pub len: u64,
}

impl<P: TimeResolution> Clone for TimeRange<P> {
    fn clone(&self) -> (r: Self)
        ensures
            r == *self,
    {
        *self
    }
}

impl<P: TimeResolution> TimeRange<P> {
    /// Validity: at least one period, and every covered index fits `i64`.
    pub open spec fn wf(self) -> bool {
        &&& 1 <= self.len <= i64::MAX
        &&& self.start.index_spec() + self.len - 1 <= i64::MAX
    }

    /// First covered index.
    pub open spec fn lo_spec(self) -> int {
        self.start.index_spec()
    }

    /// One past the last covered index.
    pub open spec fn hi_spec(self) -> int {
        self.start.index_spec() + self.len
    }

    /// The range of `len` periods from `start` on.
    pub fn new(start: P, len: u64) -> (r: TimeRange<P>)
        requires
            1 <= len <= i64::MAX,
            start.index_spec() + len - 1 <= i64::MAX,
        ensures
            r.wf(),
            r.start == start,
            r.len == len,
    {
        TimeRange { start, len }
    }

    /// The range of `len` periods from `start` on, or `None` when `len`
    /// is zero or the run would leave the index space.
    pub fn maybe_new(start: P, len: u64) -> (r: Option<TimeRange<P>>)
        ensures
            r is Some <==> (1 <= len <= i64::MAX && start.index_spec() + len - 1 <= i64::MAX),
            r matches Some(x) ==> x.wf() && x.start == start && x.len == len,
    {
        proof {
            start.lemma_index_bounded();
        }
        let s = start.to_monotonic();
        if 1 <= len && len <= i64::MAX as u64 && s <= i64::MAX - (len as i64 - 1) {
            Some(TimeRange { start, len })
        } else {
            None
        }
    }

    /// The range spanning the lower of the two periods to the higher,
    /// inclusive.
    pub fn from_bounds(a: P, b: P) -> (r: TimeRange<P>)
        requires
            -(i64::MAX as int) < a.index_spec() - b.index_spec() < i64::MAX as int,
        ensures
            r.wf(),
            r.lo_spec() == if a.index_spec() <= b.index_spec() {
                a.index_spec()
            } else {
                b.index_spec()
            },
            r.hi_spec() == 1 + if a.index_spec() <= b.index_spec() {
                b.index_spec()
            } else {
                a.index_spec()
            },
            r.start == if a.index_spec() <= b.index_spec() {
                a
            } else {
                b
            },
    {
        proof {
            a.lemma_index_bounded();
            b.lemma_index_bounded();
        }
        let ia = a.to_monotonic();
        let ib = b.to_monotonic();
        if ia <= ib {
            let d = a.between(b);
            TimeRange { start: a, len: d as u64 + 1 }
        } else {
            let d = b.between(a);
            TimeRange { start: b, len: d as u64 + 1 }
        }
    }

    pub fn len(&self) -> (r: u64)
        ensures
            r == self.len,
    {
        self.len
    }

    pub fn start(&self) -> (r: P)
        ensures
            r == self.start,
    {
        self.start
    }

    /// The last period of the range.
    pub fn end(&self) -> (r: P)
        requires
            self.wf(),
        ensures
            r == self.start.advance_spec(self.len - 1),
            r.index_spec() == self.hi_spec() - 1,
    {
        proof {
            self.start.lemma_index_bounded();
            self.start.lemma_advance(self.len - 1, 0);
        }
        self.start.succ_n(self.len - 1)
    }

    /// Where a period sits in the range: its offset from the start, or
    /// `None` when the range does not cover it.
    pub fn index_of(&self, point: P) -> (r: Option<usize>)
        requires
            self.wf(),
            self.len <= usize::MAX,
        ensures
            r is Some <==> self.lo_spec() <= point.index_spec() < self.hi_spec(),
            r matches Some(i) ==> i == point.index_spec() - self.lo_spec(),
    {
        proof {
            self.start.lemma_index_bounded();
            point.lemma_index_bounded();
        }
        let s = self.start.to_monotonic();
        let e = s + (self.len as i64 - 1);
        let pt = point.to_monotonic();
        if pt < s || pt > e {
            None
        } else {
            Some((pt - s) as usize)
        }
    }

    /// The overlap of two ranges, if they share at least one period.
    pub fn intersection(&self, other: &TimeRange<P>) -> (r: Option<TimeRange<P>>)
        requires
            self.wf(),
            other.wf(),
        ensures
            r is Some <==> (if self.lo_spec() >= other.lo_spec() {
                self.lo_spec()
            } else {
                other.lo_spec()
            }) < (if self.hi_spec() <= other.hi_spec() {
                self.hi_spec()
            } else {
                other.hi_spec()
            }),
            r matches Some(x) ==> {
                &&& x.wf()
                &&& x.lo_spec() == if self.lo_spec() >= other.lo_spec() {
                    self.lo_spec()
                } else {
                    other.lo_spec()
                }
                &&& x.hi_spec() == if self.hi_spec() <= other.hi_spec() {
                    self.hi_spec()
                } else {
                    other.hi_spec()
                }
                &&& x.start == if self.lo_spec() >= other.lo_spec() {
                    self.start
                } else {
                    other.start
                }
            },
    {
        proof {
            self.start.lemma_index_bounded();
            other.start.lemma_index_bounded();
        }
        let max_start = if self.start.to_monotonic() >= other.start.to_monotonic() {
            self.start
        } else {
            other.start
        };
        let self_end = self.end();
        let other_end = other.end();
        let min_end = if self_end.to_monotonic() <= other_end.to_monotonic() {
            self_end
        } else {
            other_end
        };
        if max_start.to_monotonic() <= min_end.to_monotonic() {
            Some(TimeRange::from_bounds(max_start, min_end))
        } else {
            None
        }
    }

    /// The union of two overlapping ranges; two ranges that touch without
    /// overlapping have no union.
    pub fn union(&self, other: &TimeRange<P>) -> (r: Option<TimeRange<P>>)
        requires
            self.wf(),
            other.wf(),
            (if self.hi_spec() >= other.hi_spec() {
                self.hi_spec()
            } else {
                other.hi_spec()
            }) - (if self.lo_spec() <= other.lo_spec() {
                self.lo_spec()
            } else {
                other.lo_spec()
            }) <= i64::MAX,
        ensures
            r is Some <==> (if self.lo_spec() >= other.lo_spec() {
                self.lo_spec()
            } else {
                other.lo_spec()
            }) < (if self.hi_spec() <= other.hi_spec() {
                self.hi_spec()
            } else {
                other.hi_spec()
            }),
            r matches Some(x) ==> {
                &&& x.wf()
                &&& x.lo_spec() == if self.lo_spec() <= other.lo_spec() {
                    self.lo_spec()
                } else {
                    other.lo_spec()
                }
                &&& x.hi_spec() == if self.hi_spec() >= other.hi_spec() {
                    self.hi_spec()
                } else {
                    other.hi_spec()
                }
            },
    {
        proof {
            self.start.lemma_index_bounded();
            other.start.lemma_index_bounded();
        }
        if self.intersection(other).is_some() {
            let min_start = if self.start.to_monotonic() <= other.start.to_monotonic() {
                self.start
            } else {
                other.start
            };
            let self_end = self.end();
            let other_end = other.end();
            let max_end = if self_end.to_monotonic() >= other_end.to_monotonic() {
                self_end
            } else {
                other_end
            };
            Some(TimeRange::from_bounds(min_start, max_end))
        } else {
            None
        }
    }

    /// Whether the range's exact time span contains the time span of a
    /// period of a kind spanning no longer than this range's kind.
    pub fn contains<O>(&self, rhs: O) -> (r: bool) where
        O: TimeResolution,
        P: LongerThanOrEqual<O>,

        requires
            self.wf(),
            self.start.ts_valid(),
            self.start.index_spec() + self.len <= i64::MAX,
            self.start.advance_spec(self.len as int).ts_valid(),
            rhs.ts_valid(),
            rhs.index_spec() + 1 <= i64::MAX,
            rhs.advance_spec(1).ts_valid(),
        ensures
            r == (self.start.start_secs_spec() <= rhs.start_secs_spec() && rhs.advance_spec(
                1,
            ).start_secs_spec() <= self.start.advance_spec(self.len as int).start_secs_spec()),
    {
        let range_start = self.start.start_timestamp();
        proof {
            self.start.lemma_index_bounded();
        }
        let end_succ = self.end().succ();
        proof {
            self.start.lemma_advance(self.len - 1, 1);
        }
        let range_end = end_succ.start_timestamp();
        let comparison_start = rhs.start_timestamp();
        let comparison_end = rhs.succ().start_timestamp();
        range_start <= comparison_start && comparison_end <= range_end
    }

    /// Every period of the range, in order.
    pub fn set(&self) -> (r: Vec<P>)
        requires
            self.wf(),
            self.len <= usize::MAX,
        ensures
            r@.len() == self.len,
            forall|k: int| 0 <= k < self.len ==> r@[k] == self.start.advance_spec(k),
    {
        let mut out: Vec<P> = Vec::new();
        let mut i: u64 = 0;
        while i < self.len
            invariant
                self.wf(),
                self.len <= usize::MAX,
                i <= self.len,
                out@.len() == i,
                forall|k: int| 0 <= k < i ==> out@[k] == self.start.advance_spec(k),
            decreases self.len - i,
        {
            proof {
                self.start.lemma_index_bounded();
            }
            let p = self.start.succ_n(i);
            out.push(p);
            i = i + 1;
        }
        out
    }

    /// The raw indexes of the range's periods, in ascending order.
    pub fn to_indexes(&self) -> (r: Vec<i64>)
        requires
            self.wf(),
            self.len <= usize::MAX,
        ensures
            r@.len() == self.len,
            forall|k: int| 0 <= k < self.len ==> r@[k] == self.lo_spec() + k,
    {
        let mut out: Vec<i64> = Vec::new();
        let s = self.start.to_monotonic();
        let mut i: u64 = 0;
        while i < self.len
            invariant
                self.wf(),
                self.len <= usize::MAX,
                s == self.lo_spec(),
                i <= self.len,
                out@.len() == i,
                forall|k: int| 0 <= k < i ==> out@[k] == self.lo_spec() + k,
            decreases self.len - i,
        {
            proof {
                self.start.lemma_index_bounded();
            }
            out.push(s + i as i64);
            i = i + 1;
        }
        out
    }

    /// A restartable walk over the range's periods.
    pub fn iter(&self) -> (r: TimeRangeIter<P>)
        requires
            self.wf(),
        ensures
            r.wf(),
            r.current == self.start,
            r.remaining == self.len,
    {
        TimeRangeIter { current: self.start, remaining: self.len }
    }

    /// The range of `Out`-periods spanning the same instants, rescaled
    /// through exact start instants: exact when the range's bounds align
    /// with `Out`-period bounds, else truncated to the largest fully
    /// aligned span, which the preconditions require to be non-empty.
    pub fn rescale<Out>(&self) -> (r: TimeRange<Out>) where Out: FromTimestamp
        requires
            self.wf(),
            self.start.ts_valid(),
            self.start.index_spec() + self.len <= i64::MAX,
            self.start.advance_spec(self.len as int).ts_valid(),
            Out::from_ts_ok(self.start.start_secs_spec()),
            Out::from_ts_ok(self.start.advance_spec(self.len as int).start_secs_spec()),
            Out::from_ts_spec(self.start.start_secs_spec()).index_spec() < Out::from_ts_spec(
                self.start.advance_spec(self.len as int).start_secs_spec(),
            ).index_spec(),
            Out::from_ts_spec(self.start.advance_spec(self.len as int).start_secs_spec()).index_spec()
                - Out::from_ts_spec(self.start.start_secs_spec()).index_spec() <= i64::MAX,
        ensures
            r.wf(),
            r.start == Out::from_ts_spec(self.start.start_secs_spec()),
            r.hi_spec() == Out::from_ts_spec(
                self.start.advance_spec(self.len as int).start_secs_spec(),
            ).index_spec(),
    {
        let out_start = Out::from_timestamp(self.start.start_timestamp());
        proof {
            self.start.lemma_index_bounded();
        }
        let end_succ = self.end().succ();
        proof {
            self.start.lemma_advance(self.len - 1, 1);
        }
        let out_after = Out::from_timestamp(end_succ.start_timestamp());
        proof {
            out_start.lemma_index_bounded();
            out_after.lemma_index_bounded();
            out_after.lemma_advance(-1, 0);
        }
        let out_end = out_after.pred();
        TimeRange::from_bounds(out_start, out_end)
    }
}

/// A walk over the periods of a range, from the start to the end.
pub struct TimeRangeIter<P: TimeResolution> {
    pub current: P,
    pub remaining: u64,
}

impl<P: TimeResolution> TimeRangeIter<P> {
    /// Validity: the periods still to be yielded stay within the index
    /// space.
    pub open spec fn wf(self) -> bool {
        self.remaining > 0 ==> {
            &&& self.remaining <= i64::MAX
            &&& self.current.index_spec() + self.remaining - 1 <= i64::MAX
        }
    }

    /// The next period of the range, or `None` when the walk is done.
    pub fn next(&mut self) -> (r: Option<P>)
        requires
            old(self).wf(),
        ensures
            final(self).wf(),
            old(self).remaining == 0 ==> r is None && *final(self) == *old(self),
            old(self).remaining > 0 ==> {
                &&& r == Some(old(self).current)
                &&& final(self).remaining == old(self).remaining - 1
                &&& final(self).current == if old(self).remaining > 1 {
                    old(self).current.advance_spec(1)
                } else {
                    old(self).current
                }
            },
    {
        if self.remaining == 0 {
            None
        } else {
            let ret = self.current;
            if self.remaining > 1 {
                proof {
                    self.current.lemma_index_bounded();
                    self.current.lemma_advance(1, self.remaining - 2);
                }
                self.current = self.current.succ();
            }
            self.remaining = self.remaining - 1;
            Some(ret)
        }
    }
}

/// Length of the first maximal contiguous run of a sorted index sequence.
pub open spec fn run_len(s: Seq<i64>) -> int
    decreases s.len(),
{
    if s.len() == 0 {
        0
    } else if s.len() == 1 {
        1
    } else if s[1] == s[0] + 1 {
        1 + run_len(s.drop_first())
    } else {
        1
    }
}

/// The maximal contiguous runs of a sorted index sequence, each as its
/// first index and its length.
pub open spec fn contiguous_runs(s: Seq<i64>) -> Seq<(int, int)>
    decreases s.len(),
    via contiguous_runs_decreases
{
    if s.len() == 0 {
        Seq::empty()
    } else {
        seq![(s[0] as int, run_len(s))] + contiguous_runs(s.skip(run_len(s)))
    }
}

#[via_fn]
proof fn contiguous_runs_decreases(s: Seq<i64>) {
    lemma_run_len_bounds(s);
}

/// The first run is at least one element and at most the whole sequence.
pub proof fn lemma_run_len_bounds(s: Seq<i64>)
    ensures
        0 <= run_len(s) <= s.len(),
        s.len() > 0 ==> 1 <= run_len(s),
    decreases s.len(),
{
    if s.len() > 1 && s[1] == s[0] + 1 {
        lemma_run_len_bounds(s.drop_first());
    }
}

/// A prefix that is a run, and is not extendable, is the first maximal
/// run: the runs of the whole sequence are that prefix's run followed by
/// the runs of the rest.
pub proof fn lemma_runs_split(s: Seq<i64>, k: int)
    requires
        1 <= k <= s.len(),
        forall|i: int| 0 < i < k ==> #[trigger] s[i] == s[0] + i,
        k < s.len() ==> s[k as int] != s[0] + k,
    ensures
        run_len(s) == k,
        contiguous_runs(s) == seq![(s[0] as int, k)] + contiguous_runs(s.skip(k)),
    decreases k,
{
    if k == 1 {
        if s.len() > 1 {
            assert(s[1] != s[0] + 1);
        }
    } else {
        let t = s.drop_first();
        assert(s[1] == s[0] + 1);
        assert forall|i: int| 0 < i < k - 1 implies #[trigger] t[i] == t[0] + i by {
            assert(t[i] == s[i + 1]);
        }
        if k - 1 < t.len() {
            assert(t[k - 1] == s[k as int]);
        }
        lemma_runs_split(t, k - 1);
        assert(run_len(s) == 1 + run_len(t));
        assert(t.skip(k - 1) =~= s.skip(k));
    }
}

/// In a sorted sequence, the block from `j` to `i` that steps by one and
/// does not extend past `i` is a maximal run of the tail starting at `j`.
proof fn lemma_close_run(s: Seq<i64>, j: int, i: int)
    requires
        forall|t: int| 0 <= t < s.len() - 1 ==> #[trigger] s[t] < s[t + 1],
        0 <= j < i <= s.len(),
        forall|t: int| j < t < i ==> #[trigger] s[t] == s[j] + (t - j),
        i < s.len() ==> s[i] != s[i - 1] + 1,
    ensures
        run_len(s.skip(j)) == i - j,
        contiguous_runs(s.skip(j)) == seq![(s[j] as int, i - j)] + contiguous_runs(s.skip(i)),
{
    let tail = s.skip(j);
    assert forall|t: int| 0 < t < i - j implies #[trigger] tail[t] == tail[0] + t by {
        assert(tail[t] == s[j + t]);
        assert(s[j + t] == s[j] + (j + t - j));
    }
    if i < s.len() {
        assert(s[i - 1] < s[i]);
        if i - 1 > j {
            assert(s[i - 1] == s[j] + (i - 1 - j));
        }
        assert(tail[i - j] == s[i]);
        assert(tail[i - j] != tail[0] + (i - j));
    }
    lemma_runs_split(tail, i - j);
    assert(tail.skip(i - j) =~= s.skip(i));
}

impl<P: TimeResolution + FromMonotonic> TimeRange<P> {
    /// Partition a sorted set of raw indexes into its maximal contiguous
    /// runs, each as a range, in ascending order.
    #[verifier::rlimit(100)]
    #[verifier::spinoff_prover]
    pub fn from_map(map: &Vec<i64>) -> (r: Vec<TimeRange<P>>)
        requires
            map@.len() <= i64::MAX,
            forall|i: int| 0 <= i < map@.len() - 1 ==> #[trigger] map@[i] < map@[i + 1],
        ensures
            r@.len() == contiguous_runs(map@).len(),
            forall|i: int|
                0 <= i < r@.len() ==> {
                    &&& r@[i].wf()
                    &&& (#[trigger] r@[i]).start == P::from_index_spec(contiguous_runs(map@)[i].0)
                    &&& r@[i].len == contiguous_runs(map@)[i].1
                },
    {
        let ghost s = map@;
        let mut ranges: Vec<TimeRange<P>> = Vec::new();
        if map.len() == 0 {
            return ranges;
        }
        let ghost mut done: Seq<(int, int)> = Seq::empty();
        let mut j: usize = 0;  // where the open run begins
        let mut i: usize = 1;  // next element to look at
        let mut run_start: P = P::from_monotonic(map[0]);
        proof {
            assert(s.skip(0) =~= s);
        }
        while i < map.len()
            invariant
                s == map@,
                s.len() <= i64::MAX,
                forall|t: int| 0 <= t < s.len() - 1 ==> #[trigger] s[t] < s[t + 1],
                0 <= j < i <= s.len(),
                run_start == P::from_index_spec(s[j as int] as int),
                forall|t: int| j < t < i ==> #[trigger] s[t] == s[j as int] + (t - j),
                contiguous_runs(s) =~= done + contiguous_runs(s.skip(j as int)),
                ranges@.len() == done.len(),
                forall|t: int|
                    0 <= t < done.len() ==> {
                        &&& (#[trigger] ranges@[t]).wf()
                        &&& ranges@[t].start == P::from_index_spec(done[t].0)
                        &&& ranges@[t].len == done[t].1
                    },
            decreases s.len() - i,
        {
            if map[i] == map[i - 1] + 1 {
                proof {
                    if i - 1 > j {
                        assert(s[i - 1] == s[j as int] + (i - 1 - j));
                    }
                }
                i = i + 1;
            } else {
                // Close the run [j, i).
                proof {
                    lemma_close_run(s, j as int, i as int);
                    P::lemma_from_index(s[j as int] as int);
                    if i - 1 > j {
                        assert(s[i - 1] == s[j as int] + (i - 1 - j));
                    }
                }
                let closed = TimeRange { start: run_start, len: (i - j) as u64 };
                proof {
                    assert(closed.start.index_spec() == s[j as int]);
                    assert(closed.start.index_spec() + closed.len - 1 == s[i - 1]);
                    assert(closed.wf());
                }
                ranges.push(closed);
                proof {
                    done = done.push((s[j as int] as int, (i - j) as int));
                    assert(s.skip(j as int).skip(i - j) =~= s.skip(i as int));
                    assert(contiguous_runs(s) =~= done + contiguous_runs(s.skip(i as int)));
                }
                run_start = P::from_monotonic(map[i]);
                j = i;
                i = i + 1;
            }
        }
        // Close the final run.
        proof {
            lemma_close_run(s, j as int, i as int);
            P::lemma_from_index(s[j as int] as int);
            if i - 1 > j {
                assert(s[i - 1] == s[j as int] + (i - 1 - j));
            }
        }
        let closed = TimeRange { start: run_start, len: (map.len() - j) as u64 };
        proof {
            assert(closed.start.index_spec() == s[j as int]);
            assert(closed.start.index_spec() + closed.len - 1 == s[i - 1]);
            assert(closed.wf());
        }
        ranges.push(closed);
        proof {
            done = done.push((s[j as int] as int, (i - j) as int));
            assert(s.skip(j as int).skip(i - j) =~= s.skip(i as int));
            assert(s.skip(i as int).len() == 0);
            assert(contiguous_runs(s.skip(i as int)) =~= Seq::<(int, int)>::empty());
            assert(contiguous_runs(s) =~= done);
        }
        ranges
    }

    /// The single range covering a sorted, contiguous set of periods:
    /// its first element with the set's size as the length.
    pub fn from_set(set: &Vec<P>) -> (r: Option<TimeRange<P>>)
        requires
            forall|i: int|
                0 <= i < set@.len() ==> (#[trigger] set@[i]).index_spec() == set@[0].index_spec()
                    + i,
        ensures
            r is Some <==> 1 <= set@.len() <= i64::MAX,
            r matches Some(x) ==> x.wf() && x.start == set@[0] && x.len == set@.len(),
    {
        if set.len() == 0 || set.len() as u64 > i64::MAX as u64 {
            return None;
        }
        proof {
            set@[0].lemma_index_bounded();
            set@[set@.len() - 1].lemma_index_bounded();
        }
        Some(TimeRange { start: set[0], len: set.len() as u64 })
    }
}

impl<P: DateResolution> TimeRange<P> {
    /// The range of sub-date periods covering the same days as this whole
    /// range: from the first period of the first day to the last period
    /// of the last day.
    pub fn to_sub_date_resolution<S>(&self) -> (r: TimeRange<S>) where
        S: SubDateResolution<Params = P::Params>,

        requires
            self.wf(),
            self.start.ts_valid(),
            self.start.index_spec() + self.len <= i64::MAX,
            self.start.advance_spec(self.len - 1).ts_valid(),
            self.start.advance_spec(self.len as int).ts_valid(),
            S::sub_ok(),
            ({
                let f = S::first_on_day_spec(
                    self.start.start_day_spec(),
                    self.start.params_spec(),
                );
                let l = S::first_on_day_spec(
                    self.start.advance_spec(self.len as int).start_day_spec(),
                    self.start.params_spec(),
                ).advance_spec(-1);
                f.index_spec() <= l.index_spec() && l.index_spec() - f.index_spec() < i64::MAX
            }),
        ensures
            r.wf(),
            r.start == S::first_on_day_spec(self.start.start_day_spec(), self.start.params_spec()),
            r.hi_spec() == S::first_on_day_spec(
                self.start.advance_spec(self.len as int).start_day_spec(),
                self.start.params_spec(),
            ).advance_spec(-1).index_spec() + 1,
    {
        proof {
            self.start.lemma_index_bounded();
            self.start.lemma_advance(self.len - 1, 1);
            self.start.lemma_advance(self.len as int, 0);
            self.start.lemma_start_day(self.len as int);
            let e = self.start.advance_spec(self.len - 1);
            e.lemma_index_bounded();
            e.lemma_start_day(1);
            let nx = self.start.advance_spec(self.len as int);
            nx.lemma_index_bounded();
            nx.lemma_start_day(0);
        }
        let s_date = self.start.start();
        let e_per = self.end();
        let e_date = e_per.end();
        let first = S::first_on_day(&s_date, self.start.params());
        let last = S::last_on_day(&e_date, e_per.params());
        proof {
            first.lemma_index_bounded();
            last.lemma_index_bounded();
        }
        TimeRange::from_bounds(first, last)
    }
}

/// Convenience operations shared by every date-level kind: the last day,
/// the day count, and rescaling to finer kinds.
pub trait DateResolutionExt: DateResolution {
    /// The period's last day.
    fn end(&self) -> (r: Date)
        requires
            self.ts_valid(),
            self.index_spec() + 1 <= i64::MAX,
            self.advance_spec(1).ts_valid(),
        ensures
            r.wf(),
            r.num() == self.advance_spec(1).start_day_spec() - 1,
            r.num() >= self.start_day_spec(),
    ;

    /// How many days the period spans.
    fn num_days(&self) -> (r: i64)
        requires
            self.ts_valid(),
            self.index_spec() + 1 <= i64::MAX,
            self.advance_spec(1).ts_valid(),
        ensures
            r == self.advance_spec(1).start_day_spec() - self.start_day_spec(),
            r >= 1,
    ;

    /// The range of `Out`-periods covering the same days, from the period
    /// holding this period's first day to the one holding its last.
    fn rescale<Out>(&self) -> (r: TimeRange<Out>) where
        Out: DateResolution<Params = Self::Params>,
        Self: LongerThan<Out>,

        requires
            self.ts_valid(),
            self.index_spec() + 1 <= i64::MAX,
            self.advance_spec(1).ts_valid(),
            Out::from_date_spec(
                self.advance_spec(1).start_day_spec() - 1,
                self.params_spec(),
            ).index_spec() - Out::from_date_spec(
                self.start_day_spec(),
                self.params_spec(),
            ).index_spec() < i64::MAX,
        ensures
            r.wf(),
            r.start == Out::from_date_spec(self.start_day_spec(), self.params_spec()),
            r.hi_spec() == Out::from_date_spec(
                self.advance_spec(1).start_day_spec() - 1,
                self.params_spec(),
            ).index_spec() + 1,
    ;

    /// The range of sub-date periods covering the same days, from the
    /// first period of this period's first day to the last period of its
    /// last day.
    fn to_sub_date_resolution<R>(&self) -> (r: TimeRange<R>) where
        R: SubDateResolution<Params = Self::Params>,

        requires
            self.ts_valid(),
            self.index_spec() + 1 <= i64::MAX,
            self.advance_spec(1).ts_valid(),
            R::sub_ok(),
            ({
                let first = R::first_on_day_spec(self.start_day_spec(), self.params_spec());
                let last = R::first_on_day_spec(
                    self.advance_spec(1).start_day_spec(),
                    self.params_spec(),
                ).advance_spec(-1);
                first.index_spec() <= last.index_spec() && last.index_spec()
                    - first.index_spec() < i64::MAX
            }),
        ensures
            r.wf(),
            r.start == R::first_on_day_spec(self.start_day_spec(), self.params_spec()),
            r.hi_spec() == R::first_on_day_spec(
                self.advance_spec(1).start_day_spec(),
                self.params_spec(),
            ).advance_spec(-1).index_spec() + 1,
    ;
}

impl<T: DateResolution> DateResolutionExt for T {
    fn end(&self) -> (r: Date) {
        proof {
            self.lemma_index_bounded();
            self.lemma_start_day(1);
            let nx = self.advance_spec(1);
            nx.lemma_index_bounded();
            nx.lemma_start_day(0);
        }
        let nxt = self.succ();
        let d = nxt.start();
        Date::from_day_number(d.day_number - 1)
    }

    fn num_days(&self) -> (r: i64) {
        proof {
            self.lemma_index_bounded();
            self.lemma_start_day(1);
            let nx = self.advance_spec(1);
            nx.lemma_index_bounded();
            nx.lemma_start_day(0);
        }
        let s = self.start();
        let e = self.end();
        e.day_number - s.day_number + 1
    }

    fn rescale<Out>(&self) -> (r: TimeRange<Out>) where
        Out: DateResolution<Params = Self::Params>,
        Self: LongerThan<Out>,
     {
        proof {
            self.lemma_index_bounded();
            self.lemma_start_day(1);
            let nx = self.advance_spec(1);
            nx.lemma_index_bounded();
            nx.lemma_start_day(0);
        }
        let s = self.start();
        let e = self.end();
        let a = Out::from_date(&s, self.params());
        let b = Out::from_date(&e, self.params());
        proof {
            Out::lemma_from_date_monotone(s.num(), e.num(), self.params_spec());
            a.lemma_index_bounded();
            b.lemma_index_bounded();
        }
        TimeRange::from_bounds(a, b)
    }

    fn to_sub_date_resolution<R>(&self) -> (r: TimeRange<R>) where
        R: SubDateResolution<Params = Self::Params>,
     {
        proof {
            self.lemma_index_bounded();
            self.lemma_start_day(1);
            let nx = self.advance_spec(1);
            nx.lemma_index_bounded();
            nx.lemma_start_day(0);
        }
        let s = self.start();
        let e = self.end();
        let first = R::first_on_day(&s, self.params());
        let last = R::last_on_day(&e, self.params());
        proof {
            first.lemma_index_bounded();
            last.lemma_index_bounded();
        }
        TimeRange::from_bounds(first, last)
    }
}

} // verus!
