//! The spec-level model of a price time series.
//!
//! A series is a vector of `(label, price)` samples, ordered oldest
//! first; every windowed computation reads from the end of the vector
//! as "most recent". This module gives the mathematical view of such
//! a series (its sequence of price values) together with the folds
//! (sum, maximum, minimum) that the indicator contracts are stated
//! over, and the small lemmas used to drive loops over them.

use vstd::prelude::*;

verus! {

/// Largest price magnitude the indicator functions accept; keeps all
/// intermediate products and sums inside `i64`/`i128` ranges.
pub const VALUE_LIMIT: i64 = 1_000_000_000;

/// Wider magnitude bound used by the exponential moving average,
/// whose inputs may themselves be differences of smoothed values.
pub const EMA_VALUE_LIMIT: i64 = 4_000_000_000;

/// The price values of a series of `(label, price)` samples.
pub open spec fn values_of(s: Seq<(String, i64)>) -> Seq<int> {
    s.map_values(|p: (String, i64)| p.1 as int)
}

/// The mathematical view of a bare price vector.
pub open spec fn int_values(s: Seq<i64>) -> Seq<int> {
    s.map_values(|v: i64| v as int)
}

/// Every value of `vs` lies in `[-bound, bound]`.
pub open spec fn vals_within(vs: Seq<int>, bound: int) -> bool {
    forall|i: int| 0 <= i < vs.len() ==> -bound <= #[trigger] vs[i] <= bound
}

/// Every value of `vs` lies in `[-VALUE_LIMIT, VALUE_LIMIT]`.
pub open spec fn vals_bounded(vs: Seq<int>) -> bool {
    vals_within(vs, VALUE_LIMIT as int)
}

/// The last `w` values of `vs`.
pub open spec fn tail_window(vs: Seq<int>, w: int) -> Seq<int>
    recommends
        0 <= w <= vs.len(),
{
    vs.subrange(vs.len() - w, vs.len() as int)
}

/// Sum of a sequence of integers.
pub open spec fn sum_of(vs: Seq<int>) -> int
    decreases vs.len(),
{
    if vs.len() == 0 {
        0
    } else {
        sum_of(vs.drop_last()) + vs.last()
    }
}

/// Maximum of a non-empty sequence of integers.
pub open spec fn seq_max(vs: Seq<int>) -> int
    recommends
        vs.len() >= 1,
    decreases vs.len(),
{
    if vs.len() <= 1 {
        vs[0]
    } else {
        let m = seq_max(vs.drop_last());
        if vs.last() >= m {
            vs.last()
        } else {
            m
        }
    }
}

/// Minimum of a non-empty sequence of integers.
pub open spec fn seq_min(vs: Seq<int>) -> int
    recommends
        vs.len() >= 1,
    decreases vs.len(),
{
    if vs.len() <= 1 {
        vs[0]
    } else {
        let m = seq_min(vs.drop_last());
        if vs.last() <= m {
            vs.last()
        } else {
            m
        }
    }
}

/// Extending a prefix by one element adds that element to its sum.
pub proof fn lemma_sum_take_step(vs: Seq<int>, j: int)
    requires
        0 <= j < vs.len(),
    ensures
        sum_of(vs.take(j + 1)) == sum_of(vs.take(j)) + vs[j],
{
    assert(vs.take(j + 1).drop_last() =~= vs.take(j));
}

/// A sum of values from `[-bound, bound]` lies within `len * bound`.
pub proof fn lemma_sum_bounded(vs: Seq<int>, bound: int)
    requires
        bound >= 0,
        vals_within(vs, bound),
    ensures
        -((vs.len() as int) * bound) <= sum_of(vs) <= (vs.len() as int) * bound,
    decreases vs.len(),
{
    if vs.len() > 0 {
        let k = vs.len() as int;
        assert forall|i: int| 0 <= i < vs.drop_last().len() implies -bound
            <= #[trigger] vs.drop_last()[i] <= bound by {
            assert(vs.drop_last()[i] == vs[i]);
        }
        lemma_sum_bounded(vs.drop_last(), bound);
        assert(-bound <= vs[k - 1] <= bound);
        assert((k - 1) * bound + bound == k * bound) by (nonlinear_arith);
    } else {
        assert((vs.len() as int) * bound == 0) by (nonlinear_arith)
            requires
                vs.len() == 0,
        ;
    }
}

/// Extending a non-empty prefix by one element updates its maximum.
pub proof fn lemma_max_take_step(vs: Seq<int>, j: int)
    requires
        1 <= j < vs.len(),
    ensures
        seq_max(vs.take(j + 1)) == if vs[j] >= seq_max(vs.take(j)) {
            vs[j]
        } else {
            seq_max(vs.take(j))
        },
{
    assert(vs.take(j + 1).drop_last() =~= vs.take(j));
}

/// Extending a non-empty prefix by one element updates its minimum.
pub proof fn lemma_min_take_step(vs: Seq<int>, j: int)
    requires
        1 <= j < vs.len(),
    ensures
        seq_min(vs.take(j + 1)) == if vs[j] <= seq_min(vs.take(j)) {
            vs[j]
        } else {
            seq_min(vs.take(j))
        },
{
    assert(vs.take(j + 1).drop_last() =~= vs.take(j));
}

} // verus!
