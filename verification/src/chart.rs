//! The closed set of chart views that a presentation layer cycles
//! through. The engine is agnostic to which view is displayed; this
//! selector only fixes the cycling order and the display names.

use vstd::prelude::*;

verus! {

/// The available chart views, in cycling order.
#[derive(Clone, Copy, Debug, PartialEq, Eq, Structural)]
pub enum ChartType {
    Candlestick,
    Line,
    Dots,
    Bars,
    MACD,
    SMA,
    RSI,
    BollingerBands,
    Momentum,
}

impl ChartType {
    /// The view that follows `self` in the cycling order, wrapping
    /// around after the last.
    pub open spec fn spec_next(self) -> ChartType {
        match self {
            ChartType::Candlestick => ChartType::Line,
            ChartType::Line => ChartType::Dots,
            ChartType::Dots => ChartType::Bars,
            ChartType::Bars => ChartType::MACD,
            ChartType::MACD => ChartType::SMA,
            ChartType::SMA => ChartType::RSI,
            ChartType::RSI => ChartType::BollingerBands,
            ChartType::BollingerBands => ChartType::Momentum,
            ChartType::Momentum => ChartType::Candlestick,
        }
    }

    /// Advances to the next view.
    pub fn next(&self) -> (r: ChartType)
        ensures
            r == self.spec_next(),
    {
        match self {
            ChartType::Candlestick => ChartType::Line,
            ChartType::Line => ChartType::Dots,
            ChartType::Dots => ChartType::Bars,
            ChartType::Bars => ChartType::MACD,
            ChartType::MACD => ChartType::SMA,
            ChartType::SMA => ChartType::RSI,
            ChartType::RSI => ChartType::BollingerBands,
            ChartType::BollingerBands => ChartType::Momentum,
            ChartType::Momentum => ChartType::Candlestick,
        }
    }

    /// The display name of the view.
    pub open spec fn spec_name(self) -> Seq<char> {
        match self {
            ChartType::Candlestick => "Velas"@,
            ChartType::Line => "Linea"@,
            ChartType::Dots => "Puntos"@,
            ChartType::Bars => "Barras"@,
            ChartType::MACD => "MACD"@,
            ChartType::SMA => "SMA"@,
            ChartType::RSI => "RSI"@,
            ChartType::BollingerBands => "Bollinger Bands"@,
            ChartType::Momentum => "Momentum"@,
        }
    }

    /// The display name of the view.
    pub fn as_str(&self) -> (r: &'static str)
        ensures
            r@ == self.spec_name(),
    {
        match self {
            ChartType::Candlestick => "Velas",
            ChartType::Line => "Linea",
            ChartType::Dots => "Puntos",
            ChartType::Bars => "Barras",
            ChartType::MACD => "MACD",
            ChartType::SMA => "SMA",
            ChartType::RSI => "RSI",
            ChartType::BollingerBands => "Bollinger Bands",
            ChartType::Momentum => "Momentum",
        }
    }
}

} // verus!
