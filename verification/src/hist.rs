//! The histogram aggregator: fixed-width bins keyed by raw value, plus
//! underflow and overflow counters.

use vstd::prelude::*;

use crate::counts::count_above;
use crate::counts::count_below;
use crate::counts::count_val;
use crate::counts::lemma_counts_push;

verus! {

/// A histogram over the half-open value range `[min, max)`: one bin of
/// width 1 for each value in the range (`bins[j]` counts value `min + j`),
/// `below` for values under `min`, `above` for values at or over `max`.
/// `n` is the total number of values recorded.
pub struct Histogram {
    pub min: i32,
    pub max: i32,
    pub below: u32,
    pub above: u32,
    pub bins: Vec<u32>,
    pub n: u64,
}

impl Histogram {
    /// Internal consistency: one bin per in-range value, and no counter
    /// exceeds the number of recorded values.
    pub open spec fn wf(self) -> bool {
        &&& self.min <= self.max
        &&& self.bins@.len() == self.max - self.min
        &&& self.below <= self.n
        &&& self.above <= self.n
        &&& forall|j: int| 0 <= j < self.bins@.len() ==> self.bins@[j] <= self.n
    }

    /// The counters are exactly those computed over the value sequence
    /// `vals`: the histogram is a faithful summary of `vals`.
    pub open spec fn summarises(self, vals: Seq<i32>) -> bool {
        &&& self.n == vals.len()
        &&& self.below == count_below(vals, self.min)
        &&& self.above == count_above(vals, self.max)
        &&& forall|j: int|
            0 <= j < self.bins@.len() ==> self.bins@[j] == count_val(vals, self.min + j)
    }

    /// An empty histogram over `[min, max)`, all counters zero.
    pub fn new(min: i32, max: i32) -> (r: Histogram)
        requires
            min <= max,
        ensures
            r.wf(),
            r.min == min,
            r.max == max,
            r.summarises(Seq::<i32>::empty()),
    {
        let width = (max as i64 - min as i64) as usize;
        let mut bins: Vec<u32> = Vec::new();
        while bins.len() < width
            invariant
                bins@.len() <= width,
                forall|j: int| 0 <= j < bins@.len() ==> bins@[j] == 0,
            decreases width - bins.len(),
        {
            bins.push(0);
        }
        Histogram { min, max, below: 0, above: 0, bins, n: 0 }
    }

    /// Record one reconstructed value: increment the bin it falls in, or
    /// the underflow or overflow counter when it lies outside `[min, max)`.
    pub fn record(&mut self, v: i32)
        requires
            old(self).wf(),
            old(self).n < u32::MAX,
        ensures
            final(self).wf(),
            final(self).min == old(self).min,
            final(self).max == old(self).max,
            final(self).n == old(self).n + 1,
            forall|vals: Seq<i32>|
                old(self).summarises(vals) ==> final(self).summarises(vals.push(v)),
    {
        let ghost pre = *self;
        self.n = self.n + 1;
        if v < self.min {
            self.below = self.below + 1;
        } else if v >= self.max {
            self.above = self.above + 1;
        } else {
            let j = (v as i64 - self.min as i64) as usize;
            let c = self.bins[j];
            self.bins.set(j, c + 1);
        }
        proof {
            assert forall|vals: Seq<i32>| pre.summarises(vals) implies self.summarises(
                vals.push(v),
            ) by {
                lemma_counts_push(vals, v, pre.min, pre.max, 0);
                assert forall|j: int| 0 <= j < self.bins@.len() implies self.bins@[j]
                    == count_val(vals.push(v), self.min + j) by {
                    lemma_counts_push(vals, v, pre.min, pre.max, self.min + j);
                }
            }
        }
    }

    /// The rows of the result: one `(label, count)` pair per bin, labels
    /// running from `min` up to `max`, plus the two outside counters.
    pub fn into_rows(self) -> (r: (Vec<(i32, u32)>, u32, u32))
        requires
            self.wf(),
        ensures
            r.0@.len() == self.max - self.min,
            forall|j: int|
                0 <= j < r.0@.len() ==> (#[trigger] r.0@[j]).0 == self.min + j && r.0@[j].1
                    == self.bins@[j],
            r.1 == self.below,
            r.2 == self.above,
    {
        let mut rows: Vec<(i32, u32)> = Vec::new();
        let mut j: usize = 0;
        while j < self.bins.len()
            invariant
                self.wf(),
                0 <= j <= self.bins@.len(),
                rows@.len() == j,
                forall|k: int|
                    0 <= k < j ==> (#[trigger] rows@[k]).0 == self.min + k && rows@[k].1
                        == self.bins@[k],
            decreases self.bins@.len() - j,
        {
            proof {
                assert(self.min + j as int <= self.max - 1);
            }
            let label = (self.min as i64 + j as i64) as i32;
            proof {
                assert(label == self.min + j as int);
            }
            let cnt = self.bins[j];
            rows.push((label, cnt));
            proof {
                assert(rows@[j as int] == (label, cnt));
            }
            j = j + 1;
        }
        (rows, self.below, self.above)
    }
}

} // verus!
