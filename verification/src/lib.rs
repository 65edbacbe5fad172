//! Numeric core of a price-series analyser: technical indicators
//! (moving averages, RSI, MACD, Bollinger bands, momentum, a GCD-based
//! metric), OHLC candle aggregation, and one-step-ahead forecasting.
//!
//! Prices are integers in a unit chosen by the caller (for example
//! thousandths of a currency unit); results that are not integral are
//! returned as exact fractions, so every function is a pure, fully
//! specified map from its inputs to its outputs.

pub mod candles;
pub mod chart;
pub mod errors;
pub mod forecast;
pub mod indicators;
pub mod math;
pub mod ratio;
pub mod series;
