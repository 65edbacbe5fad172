use tacore::errors::EngineError;
use tacore::forecast::{linear_regression, predict_price, predict_price_moving_average};
use tacore::ratio::Ratio;

#[test]
fn regression_on_linear_prices_predicts_next_step() {
    // x = [0,1,2,3], slope 2: prediction = 106 + 2 = 108
    let prices = vec![100, 102, 104, 106];
    let r = linear_regression(&prices).unwrap();
    assert_eq!(r, Ratio { num: 2160, den: 20 });
    assert_eq!(r.num as f64 / r.den as f64, 108.0);
}

#[test]
fn regression_on_constant_prices_predicts_no_change() {
    let prices = vec![5, 5, 5];
    let r = linear_regression(&prices).unwrap();
    assert_eq!(r.num as f64 / r.den as f64, 5.0);
}

#[test]
fn regression_on_empty_series_is_invalid_input() {
    let prices: Vec<i64> = vec![];
    assert_eq!(linear_regression(&prices), Err(EngineError::InvalidInput));
}

#[test]
fn regression_on_single_price_is_degenerate() {
    let prices = vec![100];
    assert_eq!(
        linear_regression(&prices),
        Err(EngineError::DegenerateRegression)
    );
}

#[test]
fn regression_uses_trailing_window_of_30() {
    // 40 prices: an early outlier outside the 30-price window must
    // not influence the fit over the trailing linear ramp
    let mut prices = vec![1_000_000; 10];
    for i in 0..30 {
        prices.push(100 + 3 * i);
    }
    let r = linear_regression(&prices).unwrap();
    assert_eq!(r.num as f64 / r.den as f64, (100.0 + 3.0 * 29.0) + 3.0);
}

#[test]
fn moving_average_of_trailing_seven() {
    // mean of the last 7 of [5,5,5,5,5,5,5,9] = (5*6 + 9) / 7
    let prices = vec![5, 5, 5, 5, 5, 5, 5, 9];
    let r = predict_price_moving_average(&prices).unwrap();
    assert_eq!(r, Ratio { num: 39, den: 7 });
    assert!((r.num as f64 / r.den as f64 - 5.571428571428571).abs() < 1e-12);
}

#[test]
fn moving_average_of_short_series_uses_all_prices() {
    let prices = vec![3, 5];
    let r = predict_price_moving_average(&prices).unwrap();
    assert_eq!(r, Ratio { num: 8, den: 2 });
}

#[test]
fn moving_average_of_empty_series_is_invalid_input() {
    let prices: Vec<i64> = vec![];
    assert_eq!(
        predict_price_moving_average(&prices),
        Err(EngineError::InvalidInput)
    );
}

#[test]
fn predict_price_dispatches_on_mode() {
    let prices = vec![100, 102, 104, 106];
    assert_eq!(predict_price(&prices, true), linear_regression(&prices));
    assert_eq!(
        predict_price(&prices, false),
        predict_price_moving_average(&prices)
    );
}
