//! Technical indicators over a price series.
//!
//! Every function recomputes from scratch over the full series; none
//! keeps state between calls. Results that are not integral are
//! returned as exact fractions.

use vstd::prelude::*;

use crate::errors::EngineError;
use crate::math::{gcd, gcd_nat, isqrt, sqrt_floor};
use crate::ratio::{ratio_le, ratio_of, ratio_wf, signed_ratio_of, Ratio};
use crate::series::{
    lemma_sum_bounded, lemma_sum_take_step, sum_of, tail_window, vals_bounded, vals_within,
    values_of, EMA_VALUE_LIMIT, VALUE_LIMIT,
};

verus! {

/// The simple moving average of `vs` for the given period: the mean
/// of the last `period` values, or the most recent value alone when
/// the series is shorter than the period.
pub open spec fn sma_spec(vs: Seq<int>, period: int) -> Ratio {
    if vs.len() < period {
        ratio_of(vs.last(), 1)
    } else {
        ratio_of(sum_of(tail_window(vs, period)), period)
    }
}

/// Simple moving average: mean of the last `period` prices. A series
/// shorter than the period yields its most recent price (a defined
/// "not enough history" fallback, not an error).
pub fn calculate_sma(data: &Vec<(String, i64)>, period: usize) -> (r: Ratio)
    requires
        data@.len() >= 1,
        period >= 1,
        vals_bounded(values_of(data@)),
    ensures
        r == sma_spec(values_of(data@), period as int),
        ratio_wf(r),
{
    let ghost vs = values_of(data@);
    let n = data.len();
    if n < period {
        Ratio { num: data[n - 1].1 as i128, den: 1 }
    } else {
        let ghost win = tail_window(vs, period as int);
        let lo = n - period;
        let mut sum: i128 = 0;
        let mut j: usize = 0;
        while j < period
            invariant
                j <= period,
                period <= n == data@.len(),
                lo == n - period,
                vs == values_of(data@),
                vals_bounded(vs),
                win == tail_window(vs, period as int),
                sum == sum_of(win.take(j as int)),
                -(j as int) * (VALUE_LIMIT as int) <= sum <= (j as int) * (VALUE_LIMIT as int),
            decreases period - j,
        {
            proof {
                lemma_sum_take_step(win, j as int);
            }
            sum = sum + data[lo + j].1 as i128;
            j = j + 1;
        }
        proof {
            assert(win.take(period as int) =~= win);
        }
        Ratio { num: sum, den: period as i128 }
    }
}

/// One step of the exponential moving average recurrence
/// `e' = e + (v - e) * 2/(period + 1)`, carried out in integer
/// arithmetic: the adjustment `|v - e| * 2 / (period + 1)` is rounded
/// towards zero.
pub open spec fn ema_step(e: int, v: int, period: int) -> int {
    if v >= e {
        e + (2 * (v - e)) / (period + 1)
    } else {
        e - (2 * (e - v)) / (period + 1)
    }
}

/// The exponential moving average of `vs`: seeded with the first
/// (oldest) value and stepped over the entire remaining series in
/// chronological order. Its effective weighting therefore depends on
/// the full history length, unlike the windowed simple average; this
/// asymmetry is deliberate.
pub open spec fn ema_spec(vs: Seq<int>, period: int) -> int
    recommends
        vs.len() >= 1,
    decreases vs.len(),
{
    if vs.len() <= 1 {
        vs[0]
    } else {
        ema_step(ema_spec(vs.drop_last(), period), vs.last(), period)
    }
}

/// Exponential moving average with multiplier `2/(period + 1)`,
/// seeded with the oldest value and folded over the whole series.
pub fn calculate_ema(data: &Vec<(String, i64)>, period: usize) -> (r: i64)
    requires
        data@.len() >= 1,
        period >= 1,
        period < usize::MAX,
        vals_within(values_of(data@), EMA_VALUE_LIMIT as int),
    ensures
        r == ema_spec(values_of(data@), period as int),
        -EMA_VALUE_LIMIT <= r <= EMA_VALUE_LIMIT,
{
    let ghost vs = values_of(data@);
    let n = data.len();
    let p1: u64 = (period as u64) + 1;
    let mut ema: i64 = data[0].1;
    proof {
        assert(vs[0] == data@[0].1);
        assert(-EMA_VALUE_LIMIT <= vs[0] <= EMA_VALUE_LIMIT);
    }
    let mut i: usize = 1;
    while i < n
        invariant
            1 <= i <= n == data@.len(),
            vs == values_of(data@),
            vals_within(vs, EMA_VALUE_LIMIT as int),
            p1 == period + 1,
            2 <= p1,
            ema == ema_spec(vs.take(i as int), period as int),
            -EMA_VALUE_LIMIT <= ema <= EMA_VALUE_LIMIT,
        decreases n - i,
    {
        let v = data[i].1;
        proof {
            assert(vs[i as int] == data@[i as int].1);
            assert(-EMA_VALUE_LIMIT <= vs[i as int] <= EMA_VALUE_LIMIT);
        }
        let ghost old_ema = ema as int;
        if v >= ema {
            let d: u64 = (v - ema) as u64;
            let inc: u64 = (2 * d) / p1;
            proof {
                assert(inc <= d) by {
                    vstd::arithmetic::div_mod::lemma_div_is_ordered_by_denominator(
                        2 * d as int,
                        2,
                        p1 as int,
                    );
                    vstd::arithmetic::div_mod::lemma_div_multiples_vanish(d as int, 2);
                }
            }
            ema = ema + inc as i64;
        } else {
            let d: u64 = (ema - v) as u64;
            let dec: u64 = (2 * d) / p1;
            proof {
                assert(dec <= d) by {
                    vstd::arithmetic::div_mod::lemma_div_is_ordered_by_denominator(
                        2 * d as int,
                        2,
                        p1 as int,
                    );
                    vstd::arithmetic::div_mod::lemma_div_multiples_vanish(d as int, 2);
                }
            }
            ema = ema - dec as i64;
        }
        proof {
            assert(ema == ema_step(old_ema, vs[i as int], period as int));
            assert(vs.take(i + 1).drop_last() =~= vs.take(i as int));
            assert(vs.take(i + 1).last() == vs[i as int]);
        }
        i = i + 1;
    }
    proof {
        assert(vs.take(n as int) =~= vs);
    }
    ema
}

/// One smoothing step lands between the previous average and the new
/// value.
pub proof fn lemma_ema_step_between(e: int, v: int, period: int)
    requires
        period >= 1,
    ensures
        v >= e ==> e <= ema_step(e, v, period) <= v,
        v < e ==> v <= ema_step(e, v, period) <= e,
{
    if v >= e {
        vstd::arithmetic::div_mod::lemma_div_pos_is_pos(2 * (v - e), period + 1);
        vstd::arithmetic::div_mod::lemma_div_is_ordered_by_denominator(2 * (v - e), 2, period + 1);
        vstd::arithmetic::div_mod::lemma_div_multiples_vanish(v - e, 2);
    } else {
        vstd::arithmetic::div_mod::lemma_div_pos_is_pos(2 * (e - v), period + 1);
        vstd::arithmetic::div_mod::lemma_div_is_ordered_by_denominator(2 * (e - v), 2, period + 1);
        vstd::arithmetic::div_mod::lemma_div_multiples_vanish(e - v, 2);
    }
}

/// The exponential moving average of a series stays within any band
/// that contains all of the series' values.
pub proof fn lemma_ema_in_range(vs: Seq<int>, period: int, lo: int, hi: int)
    requires
        vs.len() >= 1,
        period >= 1,
        forall|i: int| 0 <= i < vs.len() ==> lo <= #[trigger] vs[i] <= hi,
    ensures
        lo <= ema_spec(vs, period) <= hi,
    decreases vs.len(),
{
    if vs.len() > 1 {
        lemma_ema_in_range(vs.drop_last(), period, lo, hi);
        lemma_ema_step_between(ema_spec(vs.drop_last(), period), vs.last(), period);
    }
}

/// On a single-element series the exponential moving average is that
/// element, unchanged, for any period.
pub proof fn lemma_ema_single(vs: Seq<int>, period: int)
    requires
        vs.len() == 1,
    ensures
        ema_spec(vs, period) == vs[0],
{
}

/// Moving average convergence/divergence: the MACD line is the
/// 12-period EMA minus the 26-period EMA. The signal line is defined
/// as the 9-period EMA of a one-point series holding the MACD line
/// itself — not of a history of past MACD values — and therefore
/// always equals the MACD line. This degenerate definition is
/// deliberate and kept as is.
pub fn calculate_macd(data: &Vec<(String, i64)>) -> (r: (i64, i64))
    requires
        data@.len() >= 1,
        vals_bounded(values_of(data@)),
    ensures
        r.0 == ema_spec(values_of(data@), 12) - ema_spec(values_of(data@), 26),
        r.1 == r.0,
{
    let ghost vs = values_of(data@);
    proof {
        assert(vals_within(vs, EMA_VALUE_LIMIT as int));
    }
    let ema12 = calculate_ema(data, 12);
    let ema26 = calculate_ema(data, 26);
    proof {
        lemma_ema_in_range(vs, 12, -(VALUE_LIMIT as int), VALUE_LIMIT as int);
        lemma_ema_in_range(vs, 26, -(VALUE_LIMIT as int), VALUE_LIMIT as int);
    }
    let macd_line = ema12 - ema26;
    let mut signal_series: Vec<(String, i64)> = Vec::new();
    signal_series.push((String::new(), macd_line));
    proof {
        assert(values_of(signal_series@) =~= seq![macd_line as int]);
    }
    let signal_line = calculate_ema(&signal_series, 9);
    (macd_line, signal_line)
}

/// The price gain from sample `i - 1` to sample `i` (zero for a
/// non-positive move). A flat move counts as a gain of zero, matching
/// the classification of deltas below.
pub open spec fn gain_at(vs: Seq<int>, i: int) -> int
    recommends
        1 <= i < vs.len(),
{
    if vs[i] >= vs[i - 1] {
        vs[i] - vs[i - 1]
    } else {
        0
    }
}

/// The price loss from sample `i - 1` to sample `i` (zero for a
/// non-negative move).
pub open spec fn loss_at(vs: Seq<int>, i: int) -> int
    recommends
        1 <= i < vs.len(),
{
    if vs[i] >= vs[i - 1] {
        0
    } else {
        vs[i - 1] - vs[i]
    }
}

/// Sum of the first `k` gains, i.e. over the oldest `k` deltas.
pub open spec fn gains_sum(vs: Seq<int>, k: int) -> int
    recommends
        k < vs.len(),
    decreases k,
{
    if k <= 0 {
        0
    } else {
        gains_sum(vs, k - 1) + gain_at(vs, k)
    }
}

/// Sum of the first `k` losses, i.e. over the oldest `k` deltas.
pub open spec fn losses_sum(vs: Seq<int>, k: int) -> int
    recommends
        k < vs.len(),
    decreases k,
{
    if k <= 0 {
        0
    } else {
        losses_sum(vs, k - 1) + loss_at(vs, k)
    }
}

/// The relative strength index of `vs` for the given period.
///
/// The averages are taken over the oldest `period` deltas of the
/// series, not the most recent ones. With `G` and `L` the summed
/// gains and losses of those deltas, `100 - 100 / (1 + (G/p)/(L/p))`
/// simplifies to the exact fraction `100 G / (G + L)`.
pub open spec fn rsi_spec(vs: Seq<int>, period: int) -> Ratio {
    if vs.len() < period + 1 {
        ratio_of(50, 1)
    } else if losses_sum(vs, period) == 0 {
        ratio_of(100, 1)
    } else {
        ratio_of(
            100 * gains_sum(vs, period),
            gains_sum(vs, period) + losses_sum(vs, period),
        )
    }
}

/// Relative strength index over the oldest `period` deltas. A series
/// with at most `period` samples yields the neutral value 50; a
/// window without losses yields 100.
pub fn calculate_rsi(data: &Vec<(String, i64)>, period: usize) -> (r: Ratio)
    requires
        data@.len() >= 1,
        period >= 1,
        vals_bounded(values_of(data@)),
    ensures
        r == rsi_spec(values_of(data@), period as int),
        ratio_wf(r),
{
    let ghost vs = values_of(data@);
    let n = data.len();
    if n - 1 < period {
        return Ratio { num: 50, den: 1 };
    }
    let mut gains: i128 = 0;
    let mut losses: i128 = 0;
    let mut i: usize = 1;
    while i <= period
        invariant
            1 <= i <= period + 1,
            period + 1 <= n == data@.len(),
            vs == values_of(data@),
            vals_bounded(vs),
            gains == gains_sum(vs, i - 1),
            losses == losses_sum(vs, i - 1),
            0 <= gains <= (i - 1) * 2_000_000_000,
            0 <= losses <= (i - 1) * 2_000_000_000,
        decreases period + 1 - i,
    {
        let prev = data[i - 1].1;
        let cur = data[i].1;
        proof {
            assert(vs[i as int] == data@[i as int].1);
            assert(vs[i - 1] == data@[i - 1].1);
            assert(-VALUE_LIMIT <= vs[i as int] <= VALUE_LIMIT);
            assert(-VALUE_LIMIT <= vs[i - 1] <= VALUE_LIMIT);
        }
        if cur >= prev {
            gains = gains + (cur - prev) as i128;
        } else {
            losses = losses + (prev - cur) as i128;
        }
        i = i + 1;
    }
    if losses == 0 {
        Ratio { num: 100, den: 1 }
    } else {
        Ratio { num: 100 * gains, den: gains + losses }
    }
}

/// On a monotonically non-decreasing series with more samples than
/// the period, the RSI is exactly 100.
pub proof fn lemma_rsi_rising(vs: Seq<int>, period: int)
    requires
        1 <= period,
        period + 1 <= vs.len(),
        forall|i: int| 1 <= i < vs.len() ==> vs[i - 1] <= #[trigger] vs[i],
    ensures
        rsi_spec(vs, period) == ratio_of(100, 1),
{
    lemma_losses_zero(vs, period);
}

proof fn lemma_losses_zero(vs: Seq<int>, k: int)
    requires
        k < vs.len(),
        forall|i: int| 1 <= i < vs.len() ==> vs[i - 1] <= #[trigger] vs[i],
    ensures
        losses_sum(vs, k) == 0,
    decreases k,
{
    if k > 0 {
        lemma_losses_zero(vs, k - 1);
    }
}

/// On a strictly decreasing series with more samples than the period,
/// the RSI is exactly 0 (a fraction with numerator 0).
pub proof fn lemma_rsi_falling(vs: Seq<int>, period: int)
    requires
        1 <= period,
        period + 1 <= vs.len(),
        vs.len() <= usize::MAX,
        vals_bounded(vs),
        forall|i: int| 1 <= i < vs.len() ==> vs[i - 1] > #[trigger] vs[i],
    ensures
        rsi_spec(vs, period).num == 0,
        rsi_spec(vs, period).den > 0,
{
    lemma_falling_sums(vs, period);
    lemma_losses_bounded(vs, period);
}

proof fn lemma_falling_sums(vs: Seq<int>, k: int)
    requires
        k < vs.len(),
        forall|i: int| 1 <= i < vs.len() ==> vs[i - 1] > #[trigger] vs[i],
    ensures
        gains_sum(vs, k) == 0,
        losses_sum(vs, k) >= k,
    decreases k,
{
    if k > 0 {
        lemma_falling_sums(vs, k - 1);
    }
}

proof fn lemma_losses_bounded(vs: Seq<int>, k: int)
    requires
        0 <= k < vs.len(),
        vals_bounded(vs),
    ensures
        losses_sum(vs, k) <= k * 2_000_000_000,
    decreases k,
{
    if k > 0 {
        lemma_losses_bounded(vs, k - 1);
    }
}

/// Sum of the squared deviations `(scale * v - off)^2` over `vs`.
///
/// With `scale` the window width `w` and `off` the window sum `S`,
/// each term is `w^2 (v - S/w)^2`, so this sum is `w^3` times the
/// variance of the window around its mean.
pub open spec fn sum_sq_dev(vs: Seq<int>, scale: int, off: int) -> int
    decreases vs.len(),
{
    if vs.len() == 0 {
        0
    } else {
        let d = scale * vs.last() - off;
        sum_sq_dev(vs.drop_last(), scale, off) + d * d
    }
}

/// Extending a prefix by one element adds that element's squared
/// deviation.
pub proof fn lemma_sum_sq_dev_take_step(vs: Seq<int>, scale: int, off: int, j: int)
    requires
        0 <= j < vs.len(),
    ensures
        sum_sq_dev(vs.take(j + 1), scale, off) == sum_sq_dev(vs.take(j), scale, off) + (scale
            * vs[j] - off) * (scale * vs[j] - off),
{
    assert(vs.take(j + 1).drop_last() =~= vs.take(j));
}

/// The Bollinger bands of `vs` for the given period, as exact
/// fractions.
///
/// The middle band is the simple moving average. The variance is
/// taken over the trailing `min(period, len)` values around the
/// middle band and divided by `period` — by the full period even when
/// fewer values are available, a deliberate policy. The deviation used
/// for the outer bands is the floor square root of the variance:
/// with `S` the window sum and `N = sum((w*v - S)^2)`, the standard
/// deviation is `sqrt(N/w^3) = sqrt(N*w)/w^2`, so the bands are
/// `S/w +- 2*sqrt_floor(N*w)/w^2`; in the short-series case with last
/// value `l` and `N = sum((v - l)^2)` they are
/// `l +- 2*sqrt_floor(N*p)/p`.
pub open spec fn bollinger_spec(vs: Seq<int>, period: int) -> (Ratio, Ratio, Ratio)
    recommends
        vs.len() >= 1,
        period >= 1,
{
    if vs.len() < period {
        let l = vs.last();
        let dev = sqrt_floor((sum_sq_dev(vs, 1, l) * period) as nat) as int;
        (
            ratio_of(l * period + 2 * dev, period),
            ratio_of(l, 1),
            ratio_of(l * period - 2 * dev, period),
        )
    } else {
        let w = period;
        let s = sum_of(tail_window(vs, w));
        let dev = sqrt_floor((sum_sq_dev(tail_window(vs, w), w, s) * w) as nat) as int;
        (ratio_of(s * w + 2 * dev, w * w), ratio_of(s, w), ratio_of(s * w - 2 * dev, w * w))
    }
}

/// Bollinger bands `(upper, middle, lower)`: the simple moving
/// average bracketed by twice the standard deviation of the trailing
/// window. The returned triple always satisfies
/// `lower <= middle <= upper` as fractions.
pub fn calculate_bollinger_bands(data: &Vec<(String, i64)>, period: usize) -> (r: (
    Ratio,
    Ratio,
    Ratio,
))
    requires
        data@.len() >= 1,
        1 <= period <= 10_000,
        vals_bounded(values_of(data@)),
    ensures
        r == bollinger_spec(values_of(data@), period as int),
        ratio_wf(r.0) && ratio_wf(r.1) && ratio_wf(r.2),
        ratio_le(r.2, r.1),
        ratio_le(r.1, r.0),
{
    let ghost vs = values_of(data@);
    let n = data.len();
    let middle = calculate_sma(data, period);
    let p128: i128 = period as i128;
    if n < period {
        let l = data[n - 1].1;
        proof {
            assert(vs[n - 1] == data@[n - 1].1);
            assert(-VALUE_LIMIT <= vs[n - 1] <= VALUE_LIMIT);
        }
        let l128: i128 = l as i128;
        let mut nn: i128 = 0;
        let mut j: usize = 0;
        while j < n
            invariant
                0 <= j <= n == data@.len(),
                n < period <= 10_000,
                vs == values_of(data@),
                vals_bounded(vs),
                l as int == vs[n - 1],
                l128 == l as int,
                nn == sum_sq_dev(vs.take(j as int), 1, l as int),
                0 <= nn <= (j as int) * 4_000_000_000_000_000_000,
            decreases n - j,
        {
            proof {
                assert(vs[j as int] == data@[j as int].1);
                assert(-VALUE_LIMIT <= vs[j as int] <= VALUE_LIMIT);
                lemma_sum_sq_dev_take_step(vs, 1, l as int, j as int);
            }
            let d: i128 = (data[j].1 as i128) - l128;
            proof {
                assert(0 <= d * d <= 4_000_000_000_000_000_000int) by (nonlinear_arith)
                    requires
                        -2_000_000_000 <= d <= 2_000_000_000,
                ;
            }
            nn = nn + d * d;
            j = j + 1;
        }
        proof {
            assert(vs.take(n as int) =~= vs);
            assert(0 <= nn * p128 <= 400_000_000_000_000_000_000_000_000int) by (nonlinear_arith)
                requires
                    0 <= nn <= 40_000_000_000_000_000_000_000int,
                    1 <= p128 <= 10_000,
            ;
        }
        let prod: i128 = nn * p128;
        let dev_u = isqrt(prod as u128);
        let dev: i128 = dev_u as i128;
        proof {
            assert(prod as u128 as nat == (sum_sq_dev(vs, 1, l as int) * (period as int)) as nat);
            assert(-10_000_000_000_000int <= l128 * p128 <= 10_000_000_000_000int)
                by (nonlinear_arith)
                requires
                    -1_000_000_000 <= l128 <= 1_000_000_000,
                    1 <= p128 <= 10_000,
            ;
        }
        let base: i128 = l128 * p128;
        let upper = Ratio { num: base + 2 * dev, den: p128 };
        let lower = Ratio { num: base - 2 * dev, den: p128 };
        proof {
            assert(lower.num * middle.den <= middle.num * lower.den) by (nonlinear_arith)
                requires
                    lower.num == l128 * p128 - 2 * dev,
                    middle.den == 1,
                    middle.num == l128,
                    lower.den == p128,
                    dev >= 0,
            ;
            assert(middle.num * upper.den <= upper.num * middle.den) by (nonlinear_arith)
                requires
                    upper.num == l128 * p128 + 2 * dev,
                    middle.den == 1,
                    middle.num == l128,
                    upper.den == p128,
                    dev >= 0,
            ;
        }
        (upper, middle, lower)
    } else {
        let ghost win = tail_window(vs, period as int);
        proof {
            assert forall|i: int| 0 <= i < win.len() implies -(VALUE_LIMIT as int)
                <= #[trigger] win[i] <= VALUE_LIMIT as int by {
                assert(win[i] == vs[vs.len() - period + i]);
            }
            lemma_sum_bounded(win, VALUE_LIMIT as int);
        }
        let s: i128 = middle.num;
        let ghost swin = sum_of(win);
        proof {
            assert(s as int == swin);
            assert(-10_000_000_000_000int <= swin <= 10_000_000_000_000int);
        }
        let lo = n - period;
        let mut nn: i128 = 0;
        let mut j: usize = 0;
        while j < period
            invariant
                0 <= j <= period,
                1 <= period <= 10_000,
                period <= n == data@.len(),
                lo == n - period,
                vs == values_of(data@),
                vals_bounded(vs),
                win == tail_window(vs, period as int),
                p128 == period as int,
                s as int == swin,
                swin == sum_of(win),
                -10_000_000_000_000 <= s <= 10_000_000_000_000,
                nn == sum_sq_dev(win.take(j as int), period as int, swin),
                0 <= nn <= (j as int) * 400_000_000_000_000_000_000_000_000,
            decreases period - j,
        {
            proof {
                assert(vs[lo + j] == data@[lo + j].1);
                assert(-VALUE_LIMIT <= vs[lo + j] <= VALUE_LIMIT);
                assert(win[j as int] == vs[lo + j]);
                lemma_sum_sq_dev_take_step(win, period as int, swin, j as int);
            }
            let v: i128 = data[lo + j].1 as i128;
            proof {
                assert(-10_000_000_000_000int <= p128 * v <= 10_000_000_000_000int)
                    by (nonlinear_arith)
                    requires
                        -1_000_000_000 <= v <= 1_000_000_000,
                        1 <= p128 <= 10_000,
                ;
            }
            let d: i128 = p128 * v - s;
            proof {
                assert(0 <= d * d <= 400_000_000_000_000_000_000_000_000int) by (nonlinear_arith)
                    requires
                        -20_000_000_000_000 <= d <= 20_000_000_000_000,
                ;
            }
            nn = nn + d * d;
            j = j + 1;
        }
        proof {
            assert(win.take(period as int) =~= win);
            assert(0 <= nn * p128 <= 40_000_000_000_000_000_000_000_000_000_000_000int)
                by (nonlinear_arith)
                requires
                    0 <= nn <= 4_000_000_000_000_000_000_000_000_000_000int,
                    1 <= p128 <= 10_000,
            ;
        }
        let prod: i128 = nn * p128;
        let dev_u = isqrt(prod as u128);
        let dev: i128 = dev_u as i128;
        proof {
            assert(prod as u128 as nat == (sum_sq_dev(win, period as int, swin) * (
            period as int)) as nat);
            assert(-100_000_000_000_000_000int <= s * p128 <= 100_000_000_000_000_000int)
                by (nonlinear_arith)
                requires
                    -10_000_000_000_000 <= s <= 10_000_000_000_000,
                    1 <= p128 <= 10_000,
            ;
            assert(1 <= p128 * p128 <= 100_000_000int) by (nonlinear_arith)
                requires
                    1 <= p128 <= 10_000,
            ;
        }
        let sw: i128 = s * p128;
        let den: i128 = p128 * p128;
        let upper = Ratio { num: sw + 2 * dev, den };
        let lower = Ratio { num: sw - 2 * dev, den };
        proof {
            assert(lower.num * middle.den <= middle.num * lower.den) by (nonlinear_arith)
                requires
                    lower.num == s * p128 - 2 * dev,
                    middle.den == p128,
                    middle.num == s,
                    lower.den == p128 * p128,
                    dev >= 0,
                    p128 >= 1,
            ;
            assert(middle.num * upper.den <= upper.num * middle.den) by (nonlinear_arith)
                requires
                    upper.num == s * p128 + 2 * dev,
                    middle.den == p128,
                    middle.num == s,
                    upper.den == p128 * p128,
                    dev >= 0,
                    p128 >= 1,
            ;
        }
        (upper, middle, lower)
    }
}

/// The momentum of `vs` for the given period: the percentage change
/// of the most recent value relative to the value `period + 1`
/// positions back from the end. A shorter series yields zero; a base
/// value of zero is a defined failure.
pub open spec fn momentum_spec(vs: Seq<int>, period: int) -> Result<Ratio, EngineError>
    recommends
        vs.len() != period,
{
    if vs.len() < period {
        Ok(ratio_of(0, 1))
    } else {
        let base = vs[vs.len() - period - 1];
        if base == 0 {
            Err(EngineError::DivisionByZero)
        } else {
            Ok(signed_ratio_of((vs.last() - base) * 100, base))
        }
    }
}

/// Momentum: `(current - past) / past * 100`, where `past` sits
/// `period + 1` positions back from the end (one further back than
/// the period; the offset is deliberate). A series shorter than the
/// period yields zero. A series of exactly `period` samples is
/// excluded: the base index would fall before the first sample.
pub fn calculate_momentum(data: &Vec<(String, i64)>, period: usize) -> (r: Result<
    Ratio,
    EngineError,
>)
    requires
        data@.len() >= 1,
        data@.len() != period,
        vals_bounded(values_of(data@)),
    ensures
        r == momentum_spec(values_of(data@), period as int),
        r matches Ok(m) ==> ratio_wf(m),
{
    let ghost vs = values_of(data@);
    let n = data.len();
    if n < period {
        return Ok(Ratio { num: 0, den: 1 });
    }
    proof {
        assert(vs[n - 1] == data@[n - 1].1);
        assert(vs[n - period - 1] == data@[n - period - 1].1);
        assert(-VALUE_LIMIT <= vs[n - 1] <= VALUE_LIMIT);
        assert(-VALUE_LIMIT <= vs[n - period - 1] <= VALUE_LIMIT);
    }
    let current = data[n - 1].1;
    let base = data[n - period - 1].1;
    if base == 0 {
        return Err(EngineError::DivisionByZero);
    }
    let num = ((current - base) as i128) * 100;
    if base > 0 {
        Ok(Ratio { num, den: base as i128 })
    } else {
        Ok(Ratio { num: -num, den: -(base as i128) })
    }
}

/// The GCD metric: fold of the greatest common divisor over the
/// pairwise GCDs of consecutive values, seeded with the first value.
/// `mcd_fold(vs, k)` is the fold after consuming the first `k`
/// values.
pub open spec fn mcd_fold(vs: Seq<int>, k: int) -> int
    recommends
        1 <= k <= vs.len(),
    decreases k,
{
    if k <= 1 {
        vs[0]
    } else {
        gcd_int(mcd_fold(vs, k - 1), gcd_int(vs[k - 2], vs[k - 1]))
    }
}

/// Greatest common divisor of two integers' absolute values.
pub open spec fn gcd_int(a: int, b: int) -> int {
    gcd_nat(vstd::math::abs(a), vstd::math::abs(b)) as int
}

/// The GCD-based metric: pairwise GCDs of consecutive values, folded
/// together starting from the first value. A single-sample series
/// yields that sample itself. The metric has no standard financial
/// meaning and is kept as a pass-through numeric curiosity.
pub fn calculate_mcd(data: &Vec<(String, i64)>) -> (r: i64)
    requires
        data@.len() >= 1,
        vals_bounded(values_of(data@)),
    ensures
        r == mcd_fold(values_of(data@), data@.len() as int),
{
    let ghost vs = values_of(data@);
    let n = data.len();
    proof {
        assert(vs[0] == data@[0].1);
        assert(-VALUE_LIMIT <= vs[0] <= VALUE_LIMIT);
    }
    let mut acc: i64 = data[0].1;
    let mut i: usize = 1;
    while i < n
        invariant
            1 <= i <= n == data@.len(),
            vs == values_of(data@),
            vals_bounded(vs),
            acc == mcd_fold(vs, i as int),
            acc > i64::MIN,
        decreases n - i,
    {
        proof {
            assert(vs[i - 1] == data@[i - 1].1);
            assert(vs[i as int] == data@[i as int].1);
            assert(-VALUE_LIMIT <= vs[i - 1] <= VALUE_LIMIT);
            assert(-VALUE_LIMIT <= vs[i as int] <= VALUE_LIMIT);
        }
        let g = gcd(data[i - 1].1, data[i].1);
        acc = gcd(acc, g);
        i = i + 1;
    }
    acc
}

/// The simple moving average is a function of its inputs alone: any
/// two results that meet `calculate_sma`'s contract on the same
/// series and period are equal.
pub proof fn lemma_sma_deterministic(vs: Seq<int>, period: int, r1: Ratio, r2: Ratio)
    requires
        r1 == sma_spec(vs, period),
        r2 == sma_spec(vs, period),
    ensures
        r1 == r2,
{
}

/// For a period strictly longer than the series, the simple moving
/// average equals the most recent value.
pub proof fn lemma_sma_short_history(vs: Seq<int>, period: int)
    requires
        vs.len() >= 1,
        period > vs.len(),
    ensures
        sma_spec(vs, period) == ratio_of(vs.last(), 1),
{
}

} // verus!
