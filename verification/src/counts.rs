//! Counting functions over sequences of reconstructed values: the
//! mathematical model of a histogram's counters.

use vstd::prelude::*;

verus! {

/// How many values of `vals` lie strictly below `min`.
pub open spec fn count_below(vals: Seq<i32>, min: i32) -> int
    decreases vals.len(),
{
    if vals.len() == 0 {
        0
    } else {
        count_below(vals.drop_last(), min) + if vals.last() < min {
            1int
        } else {
            0int
        }
    }
}

/// How many values of `vals` lie at or above `max`.
pub open spec fn count_above(vals: Seq<i32>, max: i32) -> int
    decreases vals.len(),
{
    if vals.len() == 0 {
        0
    } else {
        count_above(vals.drop_last(), max) + if vals.last() >= max {
            1int
        } else {
            0int
        }
    }
}

/// How many values of `vals` equal `x`.
pub open spec fn count_val(vals: Seq<i32>, x: int) -> int
    decreases vals.len(),
{
    if vals.len() == 0 {
        0
    } else {
        count_val(vals.drop_last(), x) + if vals.last() == x {
            1int
        } else {
            0int
        }
    }
}

/// Appending one value raises exactly the counter that value falls in.
pub proof fn lemma_counts_push(vals: Seq<i32>, v: i32, min: i32, max: i32, x: int)
    ensures
        count_below(vals.push(v), min) == count_below(vals, min) + if v < min {
            1int
        } else {
            0int
        },
        count_above(vals.push(v), max) == count_above(vals, max) + if v >= max {
            1int
        } else {
            0int
        },
        count_val(vals.push(v), x) == count_val(vals, x) + if v == x {
            1int
        } else {
            0int
        },
{
    assert(vals.push(v).drop_last() =~= vals);
    assert(vals.push(v).last() == v);
}

/// Law: histograms of separate regions combine independently. The counters
/// computed over the concatenation of two value sequences are exactly the
/// sums of the counters computed over each sequence on its own, so two
/// regions in one batch can never contaminate each other's bins or
/// overflow/underflow counts.
pub proof fn lemma_counts_concat(a: Seq<i32>, b: Seq<i32>, min: i32, max: i32, x: int)
    ensures
        count_below(a + b, min) == count_below(a, min) + count_below(b, min),
        count_above(a + b, max) == count_above(a, max) + count_above(b, max),
        count_val(a + b, x) == count_val(a, x) + count_val(b, x),
    decreases b.len(),
{
    if b.len() == 0 {
        assert(a + b =~= a);
    } else {
        lemma_counts_concat(a, b.drop_last(), min, max, x);
        assert((a + b).drop_last() =~= a + b.drop_last());
        assert((a + b).last() == b.last());
    }
}

} // verus!
