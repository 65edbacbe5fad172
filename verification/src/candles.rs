//! OHLC candle aggregation: grouping a series into fixed-size
//! open/high/low/close candles.

use vstd::prelude::*;

use crate::errors::EngineError;
use crate::series::{lemma_max_take_step, lemma_min_take_step, seq_max, seq_min, values_of};

verus! {

/// An OHLC candle over a contiguous chunk of a series: the chunk's
/// first and last values and its extrema, labelled with the chunk's
/// first label. Computed fresh from a series on each request; never
/// mutated.
#[derive(Clone, Debug)]
pub struct Candle {
    pub date: String,
    pub open: i64,
    pub high: i64,
    pub low: i64,
    pub close: i64,
}

/// Number of chunks of size `period` needed to cover `len` samples
/// (the last chunk may be shorter).
pub open spec fn chunk_count(len: int, period: int) -> int
    recommends
        period >= 1,
{
    (len + period - 1) / period
}

/// `c` is the candle over the chunk of `s` from `lo` (inclusive) to
/// `hi` (exclusive).
pub open spec fn candle_matches(c: Candle, s: Seq<(String, i64)>, lo: int, hi: int) -> bool
    recommends
        0 <= lo < hi <= s.len(),
{
    let chunk = values_of(s).subrange(lo, hi);
    &&& c.date@ == s[lo].0@
    &&& c.open == s[lo].1
    &&& c.close == s[hi - 1].1
    &&& c.high == seq_max(chunk)
    &&& c.low == seq_min(chunk)
}

/// Groups the series into candles of `period` consecutive samples
/// each; the last candle may cover fewer samples, and a chunk of one
/// sample yields a candle with `open == high == low == close`. A zero
/// period is rejected.
pub fn aggregate(data: &Vec<(String, i64)>, period: usize) -> (r: Result<Vec<Candle>, EngineError>)
    ensures
        period == 0 <==> r is Err,
        r matches Err(e) ==> e == EngineError::InvalidArgument,
        r matches Ok(c) ==> {
            &&& c@.len() == chunk_count(data@.len() as int, period as int)
            &&& forall|k: int|
                0 <= k < c@.len() ==> candle_matches(
                    #[trigger] c@[k],
                    data@,
                    k * period,
                    vstd::math::min((k + 1) * period, data@.len() as int),
                )
        },
{
    if period == 0 {
        return Err(EngineError::InvalidArgument);
    }
    let ghost vs = values_of(data@);
    let n = data.len();
    let mut candles: Vec<Candle> = Vec::new();
    let mut start: usize = 0;
    proof {
        vstd::arithmetic::div_mod::lemma_div_multiples_vanish_fancy(0, period - 1, period as int);
        assert((period as int) * 0 + (period - 1) == period - 1) by (nonlinear_arith);
    }
    while start < n
        invariant
            1 <= period,
            n == data@.len(),
            vs == values_of(data@),
            0 <= start <= n,
            start == candles@.len() * (period as int) || start == n as int,
            candles@.len() == chunk_count(start as int, period as int),
            forall|k: int|
                0 <= k < candles@.len() ==> candle_matches(
                    #[trigger] candles@[k],
                    data@,
                    k * period,
                    vstd::math::min((k + 1) * period, n as int),
                ),
        decreases n - start,
    {
        let ghost len_c = candles@.len() as int;
        let end = if n - start > period {
            start + period
        } else {
            n
        };
        let mut high = data[start].1;
        let mut low = data[start].1;
        let ghost chunk = vs.subrange(start as int, end as int);
        proof {
            assert(chunk[0] == vs[start as int]);
            assert(vs[start as int] == data@[start as int].1);
            assert(chunk.take(1) =~= seq![chunk[0]]);
        }
        let mut i = start + 1;
        while i < end
            invariant
                0 <= start < end <= n,
                n == data@.len(),
                vs == values_of(data@),
                chunk == vs.subrange(start as int, end as int),
                start + 1 <= i <= end,
                high == seq_max(chunk.take(i - start)),
                low == seq_min(chunk.take(i - start)),
            decreases end - i,
        {
            proof {
                lemma_max_take_step(chunk, i - start);
                lemma_min_take_step(chunk, i - start);
                assert(chunk[i - start] == vs[i as int]);
                assert(vs[i as int] == data@[i as int].1);
            }
            let v = data[i].1;
            if v > high {
                high = v;
            }
            if v < low {
                low = v;
            }
            i = i + 1;
        }
        proof {
            assert(chunk.take(end - start) =~= chunk);
        }
        let candle = Candle {
            date: data[start].0.clone(),
            open: data[start].1,
            high,
            low,
            close: data[end - 1].1,
        };
        candles.push(candle);
        proof {
            assert(vs[start as int] == data@[start as int].1);
            assert(vs[end - 1] == data@[end - 1].1);
            assert(candle_matches(
                candles@[len_c],
                data@,
                len_c * period,
                vstd::math::min((len_c + 1) * period, n as int),
            )) by {
                assert(len_c * period == start) by (nonlinear_arith)
                    requires
                        start == len_c * (period as int),
                ;
                assert((len_c + 1) * (period as int) == start + period) by (nonlinear_arith)
                    requires
                        start == len_c * (period as int),
                ;
            }
            if end == start + period {
                assert((period as int) * (len_c + 1) + (period - 1) == end + period - 1)
                    by (nonlinear_arith)
                    requires
                        start == len_c * (period as int),
                        end == start + period,
                ;
                vstd::arithmetic::div_mod::lemma_div_multiples_vanish_fancy(
                    len_c + 1,
                    period - 1,
                    period as int,
                );
            } else {
                assert((period as int) * (len_c + 1) + (end - start - 1) == end + period - 1)
                    by (nonlinear_arith)
                    requires
                        start == len_c * (period as int),
                ;
                vstd::arithmetic::div_mod::lemma_div_multiples_vanish_fancy(
                    len_c + 1,
                    end - start - 1,
                    period as int,
                );
            }
        }
        start = end;
    }
    Ok(candles)
}

/// For a period at least as long as the series there is exactly one
/// chunk.
pub proof fn lemma_single_chunk(len: int, period: int)
    requires
        1 <= len <= period,
    ensures
        chunk_count(len, period) == 1,
{
    assert(period * 1 + (len - 1) == len + period - 1) by (nonlinear_arith);
    vstd::arithmetic::div_mod::lemma_div_multiples_vanish_fancy(1, len - 1, period);
}

/// Any aggregation result that meets `aggregate`'s contract for a
/// period at least as long as the (non-empty) series consists of
/// exactly one candle, whose open and close are the series' first and
/// last values.
pub proof fn lemma_aggregate_whole_series(s: Seq<(String, i64)>, c: Seq<Candle>, period: int)
    requires
        1 <= s.len() <= period,
        c.len() == chunk_count(s.len() as int, period),
        forall|k: int|
            0 <= k < c.len() ==> candle_matches(
                #[trigger] c[k],
                s,
                k * period,
                vstd::math::min((k + 1) * period, s.len() as int),
            ),
    ensures
        c.len() == 1,
        c[0].open == s[0].1,
        c[0].close == s[s.len() - 1].1,
{
    lemma_single_chunk(s.len() as int, period);
    assert(candle_matches(c[0], s, 0 * period, vstd::math::min((0 + 1) * period, s.len() as int)));
    assert(0 * period == 0) by (nonlinear_arith);
    assert((0 + 1) * period == period) by (nonlinear_arith);
}

} // verus!
