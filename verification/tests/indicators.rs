use tacore::errors::EngineError;
use tacore::indicators::{
    calculate_bollinger_bands, calculate_ema, calculate_macd, calculate_mcd, calculate_momentum,
    calculate_rsi, calculate_sma,
};
use tacore::math::{gcd, isqrt};
use tacore::ratio::Ratio;

fn series(values: &[i64]) -> Vec<(String, i64)> {
    values
        .iter()
        .enumerate()
        .map(|(i, v)| (format!("d{}", i + 1), *v))
        .collect()
}

#[test]
fn sma_is_mean_of_last_two() {
    let data = series(&[10, 12, 11, 13]);
    let r = calculate_sma(&data, 2);
    assert_eq!(r, Ratio { num: 24, den: 2 });
    assert_eq!(r.num as f64 / r.den as f64, 12.0);
}

#[test]
fn sma_is_deterministic() {
    let data = series(&[10, 12, 11, 13]);
    assert_eq!(calculate_sma(&data, 3), calculate_sma(&data, 3));
}

#[test]
fn sma_short_history_returns_last_value() {
    let data = series(&[10, 12, 11, 13]);
    let r = calculate_sma(&data, 9);
    assert_eq!(r, Ratio { num: 13, den: 1 });
}

#[test]
fn sma_period_equal_to_length_is_full_mean() {
    // with period == len the mean of the whole series is returned,
    // not the last value
    let data = series(&[10, 12]);
    let r = calculate_sma(&data, 2);
    assert_eq!(r, Ratio { num: 22, den: 2 });
}

#[test]
fn ema_single_element_is_that_element() {
    for period in [1usize, 2, 9, 12, 26, 100] {
        let data = series(&[42]);
        assert_eq!(calculate_ema(&data, period), 42);
    }
}

#[test]
fn ema_two_rising_values() {
    // multiplier 2/(3+1): 10 + (2 * 3) / 4 = 11
    let data = series(&[10, 13]);
    assert_eq!(calculate_ema(&data, 3), 11);
}

#[test]
fn ema_two_falling_values() {
    // 13 - (2 * 3) / 4 = 12
    let data = series(&[13, 10]);
    assert_eq!(calculate_ema(&data, 3), 12);
}

#[test]
fn rsi_monotonically_increasing_is_100() {
    let data = series(&[1, 2, 3, 4, 5]);
    let r = calculate_rsi(&data, 3);
    assert_eq!(r, Ratio { num: 100, den: 1 });
}

#[test]
fn rsi_monotonically_decreasing_is_0() {
    let data = series(&[5, 4, 3, 2, 1]);
    let r = calculate_rsi(&data, 3);
    assert_eq!(r.num, 0);
    assert!(r.den > 0);
}

#[test]
fn rsi_short_series_is_neutral_50() {
    let data = series(&[5, 4, 3]);
    let r = calculate_rsi(&data, 3);
    assert_eq!(r, Ratio { num: 50, den: 1 });
}

#[test]
fn rsi_mixed_series_exact_value() {
    // oldest four deltas: +2, -1, +2, -1 -> gains 4, losses 2
    // RSI = 100 * 4 / 6
    let data = series(&[10, 12, 11, 13, 12]);
    let r = calculate_rsi(&data, 4);
    assert_eq!(r, Ratio { num: 400, den: 6 });
}

#[test]
fn rsi_uses_oldest_deltas_not_trailing_ones() {
    // period 2: only the two oldest deltas (+2, -1) count, the later
    // ones are ignored
    let data = series(&[10, 12, 11, 11, 11]);
    let r = calculate_rsi(&data, 2);
    assert_eq!(r, Ratio { num: 200, den: 3 });
}

#[test]
fn macd_of_single_point_is_zero() {
    let data = series(&[5]);
    assert_eq!(calculate_macd(&data), (0, 0));
}

#[test]
fn macd_signal_degenerates_to_macd_line() {
    // ema12 = 1000 + 2000/13 = 1153, ema26 = 1000 + 2000/27 = 1074
    let data = series(&[1000, 2000]);
    let (line, signal) = calculate_macd(&data);
    assert_eq!(line, 1153 - 1074);
    assert_eq!(signal, line);
}

#[test]
fn bollinger_flat_series_has_equal_bands() {
    let data = series(&[5, 5, 5, 5]);
    let (upper, middle, lower) = calculate_bollinger_bands(&data, 2);
    assert_eq!(middle, Ratio { num: 10, den: 2 });
    assert_eq!(upper, Ratio { num: 20, den: 4 });
    assert_eq!(lower, Ratio { num: 20, den: 4 });
}

#[test]
fn bollinger_exact_bands_for_two_points() {
    // window [1, 3]: mean 2, variance 1, std 1 -> bands 0 and 4
    let data = series(&[1, 3]);
    let (upper, middle, lower) = calculate_bollinger_bands(&data, 2);
    assert_eq!(middle, Ratio { num: 4, den: 2 });
    assert_eq!(upper, Ratio { num: 16, den: 4 });
    assert_eq!(lower, Ratio { num: 0, den: 4 });
}

#[test]
fn bollinger_short_series_brackets_last_value() {
    // len 2 < period 3: middle is the last value 6;
    // deviations sum to 4, dev = isqrt(4 * 3) = 3
    let data = series(&[4, 6]);
    let (upper, middle, lower) = calculate_bollinger_bands(&data, 3);
    assert_eq!(middle, Ratio { num: 6, den: 1 });
    assert_eq!(upper, Ratio { num: 24, den: 3 });
    assert_eq!(lower, Ratio { num: 12, den: 3 });
}

#[test]
fn bollinger_bands_are_ordered() {
    let data = series(&[31, 17, 23, 5, 42, 11, 29]);
    let (upper, middle, lower) = calculate_bollinger_bands(&data, 3);
    let u = upper.num as f64 / upper.den as f64;
    let m = middle.num as f64 / middle.den as f64;
    let l = lower.num as f64 / lower.den as f64;
    assert!(l <= m && m <= u);
}

#[test]
fn momentum_exact_percentage() {
    // base is vs[len - period - 1] = 12, so (13 - 12) / 12 * 100
    let data = series(&[10, 12, 11, 13]);
    let r = calculate_momentum(&data, 2);
    assert_eq!(r, Ok(Ratio { num: 100, den: 12 }));
}

#[test]
fn momentum_short_series_is_zero() {
    let data = series(&[10, 12]);
    let r = calculate_momentum(&data, 5);
    assert_eq!(r, Ok(Ratio { num: 0, den: 1 }));
}

#[test]
fn momentum_negative_base_keeps_positive_denominator() {
    // base -10, current 5: (5 - (-10)) / (-10) * 100 = -1500 / 10
    let data = series(&[-10, 2, 5]);
    let r = calculate_momentum(&data, 2).unwrap();
    assert_eq!(r, Ratio { num: -1500, den: 10 });
}

#[test]
fn momentum_zero_base_is_division_by_zero() {
    let data = series(&[0, 5, 7]);
    let r = calculate_momentum(&data, 2);
    assert_eq!(r, Err(EngineError::DivisionByZero));
}

#[test]
fn mcd_folds_pairwise_gcds() {
    // gcd(12,18) = 6, gcd(18,8) = 2; fold: gcd(gcd(12,6),2) = 2
    let data = series(&[12, 18, 8]);
    assert_eq!(calculate_mcd(&data), 2);
}

#[test]
fn mcd_single_sample_is_that_sample() {
    let data = series(&[7]);
    assert_eq!(calculate_mcd(&data), 7);
    let negative = series(&[-9]);
    assert_eq!(calculate_mcd(&negative), -9);
}

#[test]
fn mcd_handles_negative_values() {
    let data = series(&[-4, 6]);
    assert_eq!(calculate_mcd(&data), 2);
}

#[test]
fn sma_at_the_value_limit() {
    let data = series(&[1_000_000_000, -1_000_000_000, 1_000_000_000]);
    let r = calculate_sma(&data, 3);
    assert_eq!(r, Ratio { num: 1_000_000_000, den: 3 });
}

#[test]
fn bollinger_at_the_value_limit() {
    // mean 0, variance 1e18, std 1e9: bands at +-2e9, exactly
    let data = series(&[1_000_000_000, -1_000_000_000]);
    let (upper, middle, lower) = calculate_bollinger_bands(&data, 2);
    assert_eq!(middle, Ratio { num: 0, den: 2 });
    assert_eq!(upper, Ratio { num: 8_000_000_000, den: 4 });
    assert_eq!(lower, Ratio { num: -8_000_000_000, den: 4 });
}

#[test]
fn ema_with_period_one_tracks_the_series() {
    // multiplier 2/(1+1) = 1: the average jumps to each new value
    let data = series(&[10, 20, 30]);
    assert_eq!(calculate_ema(&data, 1), 30);
}

#[test]
fn gcd_basic_cases() {
    assert_eq!(gcd(12, 18), 6);
    assert_eq!(gcd(-4, 6), 2);
    assert_eq!(gcd(0, 5), 5);
    assert_eq!(gcd(7, 0), 7);
    assert_eq!(gcd(0, 0), 0);
}

#[test]
fn isqrt_exact_and_floor_cases() {
    assert_eq!(isqrt(0), 0);
    assert_eq!(isqrt(1), 1);
    assert_eq!(isqrt(12), 3);
    assert_eq!(isqrt(16), 4);
    assert_eq!(isqrt(10_000_000_000_000_000_000_000), 100_000_000_000);
}
