use tacore::candles::aggregate;
use tacore::errors::EngineError;

fn series(values: &[i64]) -> Vec<(String, i64)> {
    values
        .iter()
        .enumerate()
        .map(|(i, v)| (format!("d{}", i + 1), *v))
        .collect()
}

#[test]
fn aggregate_rejects_zero_period() {
    let data = series(&[1, 2, 3]);
    let r = aggregate(&data, 0);
    assert!(matches!(r, Err(EngineError::InvalidArgument)));
}

#[test]
fn aggregate_whole_series_into_one_candle() {
    // period >= len: exactly one candle, open/close are the series'
    // first/last values
    let data = series(&[3, 9, 4]);
    let candles = aggregate(&data, 5).unwrap();
    assert_eq!(candles.len(), 1);
    assert_eq!(candles[0].date, "d1");
    assert_eq!(candles[0].open, 3);
    assert_eq!(candles[0].close, 4);
    assert_eq!(candles[0].high, 9);
    assert_eq!(candles[0].low, 3);
}

#[test]
fn aggregate_splits_into_chunks_with_short_tail() {
    let data = series(&[1, 5, 3, 2, 4]);
    let candles = aggregate(&data, 2).unwrap();
    assert_eq!(candles.len(), 3);

    assert_eq!(candles[0].date, "d1");
    assert_eq!(candles[0].open, 1);
    assert_eq!(candles[0].close, 5);
    assert_eq!(candles[0].high, 5);
    assert_eq!(candles[0].low, 1);

    assert_eq!(candles[1].date, "d3");
    assert_eq!(candles[1].open, 3);
    assert_eq!(candles[1].close, 2);
    assert_eq!(candles[1].high, 3);
    assert_eq!(candles[1].low, 2);

    // the last chunk has a single sample: all four prices coincide
    assert_eq!(candles[2].date, "d5");
    assert_eq!(candles[2].open, 4);
    assert_eq!(candles[2].close, 4);
    assert_eq!(candles[2].high, 4);
    assert_eq!(candles[2].low, 4);
}

#[test]
fn aggregate_exact_chunks_leave_no_tail() {
    let data = series(&[7, 2, 9, 9]);
    let candles = aggregate(&data, 2).unwrap();
    assert_eq!(candles.len(), 2);
    assert_eq!(candles[1].open, 9);
    assert_eq!(candles[1].close, 9);
}

#[test]
fn aggregate_empty_series_yields_no_candles() {
    let data: Vec<(String, i64)> = Vec::new();
    let candles = aggregate(&data, 3).unwrap();
    assert_eq!(candles.len(), 0);
}
