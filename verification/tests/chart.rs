use tacore::chart::ChartType;

#[test]
fn next_cycles_through_all_views() {
    let order = [
        ChartType::Candlestick,
        ChartType::Line,
        ChartType::Dots,
        ChartType::Bars,
        ChartType::MACD,
        ChartType::SMA,
        ChartType::RSI,
        ChartType::BollingerBands,
        ChartType::Momentum,
    ];
    let mut current = ChartType::Candlestick;
    for expected in order.iter().skip(1) {
        current = current.next();
        assert_eq!(&current, expected);
    }
    // wraps around to the start
    assert_eq!(current.next(), ChartType::Candlestick);
}

#[test]
fn as_str_names_every_view() {
    assert_eq!(ChartType::Candlestick.as_str(), "Velas");
    assert_eq!(ChartType::Line.as_str(), "Linea");
    assert_eq!(ChartType::Dots.as_str(), "Puntos");
    assert_eq!(ChartType::Bars.as_str(), "Barras");
    assert_eq!(ChartType::MACD.as_str(), "MACD");
    assert_eq!(ChartType::SMA.as_str(), "SMA");
    assert_eq!(ChartType::RSI.as_str(), "RSI");
    assert_eq!(ChartType::BollingerBands.as_str(), "Bollinger Bands");
    assert_eq!(ChartType::Momentum.as_str(), "Momentum");
}
