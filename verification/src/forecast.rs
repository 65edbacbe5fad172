//! One-step-ahead price forecasting: windowed ordinary least squares
//! or a trailing moving average, selected by a caller-supplied flag.

use vstd::prelude::*;

use crate::errors::EngineError;
use crate::ratio::{ratio_of, ratio_wf, Ratio};
use crate::series::{int_values, lemma_sum_take_step, sum_of, tail_window, vals_bounded};

verus! {

/// Sum of the regression abscissas `0 + 1 + ... + (w - 1)`.
pub open spec fn sum_x(w: int) -> int
    decreases w,
{
    if w <= 0 {
        0
    } else {
        sum_x(w - 1) + (w - 1)
    }
}

/// Sum of the squared abscissas `0^2 + 1^2 + ... + (w - 1)^2`.
pub open spec fn sum_xx(w: int) -> int
    decreases w,
{
    if w <= 0 {
        0
    } else {
        sum_xx(w - 1) + (w - 1) * (w - 1)
    }
}

/// Sum of `i * win[i]` over the window, the regression's mixed
/// moment.
pub open spec fn sum_xy(win: Seq<int>) -> int
    decreases win.len(),
{
    if win.len() == 0 {
        0
    } else {
        sum_xy(win.drop_last()) + (win.len() - 1) * win.last()
    }
}

/// Denominator `w * sum_xx - sum_x^2` of the least-squares slope for
/// abscissas `0..w - 1`; zero exactly for a one-point window.
pub open spec fn regress_den(w: int) -> int {
    w * sum_xx(w) - sum_x(w) * sum_x(w)
}

/// Numerator `w * sum_xy - sum_x * sum_y` of the least-squares slope
/// over the window.
pub open spec fn regress_num(win: Seq<int>) -> int {
    (win.len() as int) * sum_xy(win) - sum_x(win.len() as int) * sum_of(win)
}

/// The regression forecast: fit a least-squares line through the
/// trailing `min(30, len)` prices re-indexed `0..w - 1` oldest first,
/// and predict one step ahead from the most recent price using the
/// slope alone (the intercept is not used). The prediction is
/// `last + slope`, i.e. `(last * D + N) / D` with slope `N / D`.
pub open spec fn linreg_spec(vs: Seq<int>) -> Result<Ratio, EngineError> {
    if vs.len() == 0 {
        Err(EngineError::InvalidInput)
    } else {
        let w = vstd::math::min(30, vs.len() as int);
        let win = tail_window(vs, w);
        if regress_den(w) == 0 {
            Err(EngineError::DegenerateRegression)
        } else {
            Ok(ratio_of(vs.last() * regress_den(w) + regress_num(win), regress_den(w)))
        }
    }
}

/// The moving-average forecast: the mean of the trailing
/// `min(7, len)` prices.
pub open spec fn moving_average_spec(vs: Seq<int>) -> Result<Ratio, EngineError> {
    if vs.len() == 0 {
        Err(EngineError::InvalidInput)
    } else {
        let w = vstd::math::min(7, vs.len() as int);
        Ok(ratio_of(sum_of(tail_window(vs, w)), w))
    }
}

/// Twice the abscissa sum has the closed form `w * (w - 1)`.
proof fn lemma_sum_x_closed(w: int)
    requires
        w >= 0,
    ensures
        2 * sum_x(w) == w * (w - 1),
    decreases w,
{
    if w > 0 {
        lemma_sum_x_closed(w - 1);
        assert(sum_x(w) == sum_x(w - 1) + (w - 1));
        assert(2 * sum_x(w) == w * (w - 1)) by (nonlinear_arith)
            requires
                2 * sum_x(w - 1) == (w - 1) * (w - 2),
                sum_x(w) == sum_x(w - 1) + (w - 1),
        ;
    } else {
        assert(w * (w - 1) == 0) by (nonlinear_arith)
            requires
                w == 0,
        ;
    }
}

/// The squared-abscissa sum is non-negative.
proof fn lemma_sum_xx_nonneg(w: int)
    ensures
        sum_xx(w) >= 0,
    decreases w,
{
    if w > 0 {
        lemma_sum_xx_nonneg(w - 1);
        assert((w - 1) * (w - 1) >= 0) by (nonlinear_arith);
    }
}

/// The slope denominator is positive for every window of at least two
/// points, so the regression is degenerate only for a one-point
/// window.
pub proof fn lemma_regress_den_pos(w: int)
    requires
        w >= 2,
    ensures
        regress_den(w) >= 1,
    decreases w,
{
    if w == 2 {
        assert(sum_x(2) == 1 && sum_xx(2) == 1) by {
            reveal_with_fuel(sum_x, 3);
            reveal_with_fuel(sum_xx, 3);
        }
        assert(regress_den(2) == 2 * 1 - 1 * 1) by (nonlinear_arith)
            requires
                sum_x(2) == 1,
                sum_xx(2) == 1,
        ;
    } else {
        let u = w - 1;
        lemma_regress_den_pos(u);
        lemma_sum_x_closed(u);
        lemma_sum_xx_nonneg(u);
        assert(regress_den(w) == regress_den(u) + sum_xx(u) + u * u) by (nonlinear_arith)
            requires
                sum_x(w) == sum_x(u) + u,
                sum_xx(w) == sum_xx(u) + u * u,
                2 * sum_x(u) == u * (u - 1),
                regress_den(u) == u * sum_xx(u) - sum_x(u) * sum_x(u),
                regress_den(w) == w * sum_xx(w) - sum_x(w) * sum_x(w),
                w == u + 1,
        ;
        assert(u * u >= 0) by (nonlinear_arith);
    }
}

/// One-step forecast by ordinary least squares over the trailing
/// `min(30, len)` prices: the window is re-indexed `0..w - 1` oldest
/// first, and the prediction is the most recent price plus the fitted
/// slope. An empty series is rejected; a one-point window makes the
/// slope's denominator zero, a defined failure.
pub fn linear_regression(prices: &Vec<i64>) -> (r: Result<Ratio, EngineError>)
    requires
        vals_bounded(int_values(prices@)),
    ensures
        r == linreg_spec(int_values(prices@)),
        prices@.len() == 0 ==> r == Err::<Ratio, EngineError>(EngineError::InvalidInput),
        prices@.len() == 1 ==> r == Err::<Ratio, EngineError>(EngineError::DegenerateRegression),
        prices@.len() >= 2 ==> r is Ok,
        r matches Ok(p) ==> ratio_wf(p),
{
    let ghost vs = int_values(prices@);
    let n = prices.len();
    if n == 0 {
        return Err(EngineError::InvalidInput);
    }
    let w = if n < 30 {
        n
    } else {
        30
    };
    let ghost win = tail_window(vs, w as int);
    let lo = n - w;
    let mut sx: i64 = 0;
    let mut sxx: i64 = 0;
    let mut sxy: i64 = 0;
    let mut sy: i64 = 0;
    let mut j: usize = 0;
    while j < w
        invariant
            0 <= j <= w <= 30,
            1 <= w <= n == prices@.len(),
            lo == n - w,
            vs == int_values(prices@),
            vals_bounded(vs),
            win == tail_window(vs, w as int),
            sx == sum_x(j as int),
            sxx == sum_xx(j as int),
            sxy == sum_xy(win.take(j as int)),
            sy == sum_of(win.take(j as int)),
            0 <= sx <= (j as int) * 29,
            0 <= sxx <= (j as int) * 841,
            -(j as int) * 29_000_000_000 <= sxy <= (j as int) * 29_000_000_000,
            -(j as int) * 1_000_000_000 <= sy <= (j as int) * 1_000_000_000,
        decreases w - j,
    {
        proof {
            assert(vs[lo + j] == prices@[lo + j] as int);
            assert(-1_000_000_000 <= vs[lo + j] <= 1_000_000_000);
            assert(win[j as int] == vs[lo + j]);
            assert(win.take(j + 1).drop_last() =~= win.take(j as int));
            lemma_sum_take_step(win, j as int);
        }
        let v = prices[lo + j];
        let ji = j as i64;
        proof {
            assert(-29_000_000_000 <= ji * v <= 29_000_000_000) by (nonlinear_arith)
                requires
                    0 <= ji <= 29,
                    -1_000_000_000 <= v <= 1_000_000_000,
            ;
            assert(0 <= ji * ji <= 841) by (nonlinear_arith)
                requires
                    0 <= ji <= 29,
            ;
        }
        sxy = sxy + ji * v;
        sxx = sxx + ji * ji;
        sx = sx + ji;
        sy = sy + v;
        j = j + 1;
    }
    proof {
        assert(win.take(w as int) =~= win);
    }
    let wi = w as i64;
    proof {
        assert(0 <= wi * sxx <= 756_900 && 0 <= sx * sx <= 756_900) by (nonlinear_arith)
            requires
                1 <= wi <= 30,
                0 <= sxx <= 25_230,
                0 <= sx <= 870,
        ;
        assert(-26_100_000_000_000 <= wi * sxy <= 26_100_000_000_000) by (nonlinear_arith)
            requires
                1 <= wi <= 30,
                -870_000_000_000 <= sxy <= 870_000_000_000,
        ;
        assert(-26_100_000_000_000 <= sx * sy <= 26_100_000_000_000) by (nonlinear_arith)
            requires
                0 <= sx <= 870,
                -30_000_000_000 <= sy <= 30_000_000_000,
        ;
    }
    let den = wi * sxx - sx * sx;
    proof {
        assert(den as int == regress_den(w as int));
        if w == 1 {
            assert(sum_x(1) == 0 && sum_xx(1) == 0) by {
                reveal_with_fuel(sum_x, 2);
                reveal_with_fuel(sum_xx, 2);
            }
            assert(regress_den(1) == 0) by (nonlinear_arith)
                requires
                    sum_x(1) == 0,
                    sum_xx(1) == 0,
                    regress_den(1) == 1 * sum_xx(1) - sum_x(1) * sum_x(1),
            ;
        } else {
            lemma_regress_den_pos(w as int);
        }
    }
    if den == 0 {
        return Err(EngineError::DegenerateRegression);
    }
    proof {
        assert(vs[n - 1] == prices@[n - 1] as int);
        assert(-1_000_000_000 <= vs[n - 1] <= 1_000_000_000);
    }
    let num = wi * sxy - sx * sy;
    let last = prices[n - 1];
    proof {
        assert(-1_000_000_000_000_000int <= (last as i128) * (den as i128)
            <= 1_000_000_000_000_000int) by (nonlinear_arith)
            requires
                -1_000_000_000 <= last as i128 <= 1_000_000_000,
                1 <= den as i128 <= 756_900,
        ;
    }
    let pred_num: i128 = (last as i128) * (den as i128) + (num as i128);
    Ok(Ratio { num: pred_num, den: den as i128 })
}

/// One-step forecast by the trailing moving average: the mean of the
/// last `min(7, len)` prices. An empty series is rejected.
pub fn predict_price_moving_average(prices: &Vec<i64>) -> (r: Result<Ratio, EngineError>)
    requires
        vals_bounded(int_values(prices@)),
    ensures
        r == moving_average_spec(int_values(prices@)),
        prices@.len() == 0 <==> r is Err,
        r matches Ok(p) ==> ratio_wf(p),
{
    let ghost vs = int_values(prices@);
    let n = prices.len();
    if n == 0 {
        return Err(EngineError::InvalidInput);
    }
    let w = if n < 7 {
        n
    } else {
        7
    };
    let ghost win = tail_window(vs, w as int);
    let lo = n - w;
    let mut sum: i128 = 0;
    let mut j: usize = 0;
    while j < w
        invariant
            0 <= j <= w <= 7,
            1 <= w <= n == prices@.len(),
            lo == n - w,
            vs == int_values(prices@),
            vals_bounded(vs),
            win == tail_window(vs, w as int),
            sum == sum_of(win.take(j as int)),
            -(j as int) * 1_000_000_000 <= sum <= (j as int) * 1_000_000_000,
        decreases w - j,
    {
        proof {
            assert(vs[lo + j] == prices@[lo + j] as int);
            assert(-1_000_000_000 <= vs[lo + j] <= 1_000_000_000);
            assert(win[j as int] == vs[lo + j]);
            lemma_sum_take_step(win, j as int);
        }
        sum = sum + prices[lo + j] as i128;
        j = j + 1;
    }
    proof {
        assert(win.take(w as int) =~= win);
    }
    Ok(Ratio { num: sum, den: w as i128 })
}

/// One-step forecast in the requested mode: least-squares regression
/// when `using_linear` is set, otherwise the trailing moving average.
pub fn predict_price(prices: &Vec<i64>, using_linear: bool) -> (r: Result<Ratio, EngineError>)
    requires
        vals_bounded(int_values(prices@)),
    ensures
        using_linear ==> r == linreg_spec(int_values(prices@)),
        !using_linear ==> r == moving_average_spec(int_values(prices@)),
        r matches Ok(p) ==> ratio_wf(p),
{
    if using_linear {
        linear_regression(prices)
    } else {
        predict_price_moving_average(prices)
    }
}

} // verus!
