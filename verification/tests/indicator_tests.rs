use marketpulse::time_series::{StockPoint, StockSegment, TimeInterval, PRICE_SCALE};
use marketpulse::indicators;
use marketpulse::stock_insights_builder::StockInsightsBuilder;

fn candle(ts: i64, open: i64, high: i64, low: i64, close: i64, volume: i64) -> StockPoint {
    StockPoint { timestamp: ts, open, high, low, close, volume }
}

fn flat_series(n: usize, price: i64) -> Vec<StockPoint> {
    let mut v = Vec::new();
    for i in 0..n {
        v.push(candle(i as i64, price, price, price, price, 1000 * PRICE_SCALE));
    }
    v
}

#[test]
fn sma_of_constant_series_is_that_constant() {
    let pts = flat_series(30, 420 * PRICE_SCALE);
    assert_eq!(indicators::sma(&pts, 7), Some(420 * PRICE_SCALE));
    assert_eq!(indicators::sma(&pts, 30), Some(420 * PRICE_SCALE));
}

#[test]
fn ema_of_constant_series_is_that_constant() {
    let pts = flat_series(30, 55 * PRICE_SCALE);
    assert_eq!(indicators::ema(&pts, 7), Some(55 * PRICE_SCALE));
    assert_eq!(indicators::ema(&pts, 30), Some(55 * PRICE_SCALE));
}

#[test]
fn rsi_of_all_gain_window_is_hundred() {
    let mut pts = Vec::new();
    for i in 0..14i64 {
        let open = 100 * PRICE_SCALE + i * PRICE_SCALE;
        let close = open + PRICE_SCALE;
        pts.push(candle(i, open, close, open, close, PRICE_SCALE));
    }
    assert_eq!(indicators::rsi(&pts, 14), Some(100 * PRICE_SCALE));
}

#[test]
fn rsi_of_all_loss_window_is_zero() {
    let mut pts = Vec::new();
    for i in 0..14i64 {
        let open = 100 * PRICE_SCALE - i * PRICE_SCALE;
        let close = open - PRICE_SCALE;
        pts.push(candle(i, open, open, close, close, PRICE_SCALE));
    }
    assert_eq!(indicators::rsi(&pts, 14), Some(0));
}

#[test]
fn sma_is_the_mean_of_the_trailing_window() {
    // closes 1.0, 2.0, 3.0, 4.0 -> SMA(3) over the last three = 3.0
    let mut pts = Vec::new();
    for (i, c) in [1i64, 2, 3, 4].iter().enumerate() {
        pts.push(candle(i as i64, *c * PRICE_SCALE, *c * PRICE_SCALE, *c * PRICE_SCALE, *c * PRICE_SCALE, 0));
    }
    assert_eq!(indicators::sma(&pts, 3), Some(3 * PRICE_SCALE));
    assert_eq!(indicators::sma(&pts, 5), None);
}

#[test]
fn day_change_percent_is_scaled_change_over_open() {
    // open 2.0, close 3.0 -> +50%
    let pts = vec![candle(0, 2 * PRICE_SCALE, 3 * PRICE_SCALE, 2 * PRICE_SCALE, 3 * PRICE_SCALE, 0)];
    assert_eq!(indicators::day_change_percent(&pts), Some(50 * PRICE_SCALE));
    assert_eq!(indicators::day_change(&pts), PRICE_SCALE);
    assert_eq!(indicators::last_close(&pts), 3 * PRICE_SCALE);
}

#[test]
fn day_change_percent_absent_for_zero_open() {
    let pts = vec![candle(0, 0, PRICE_SCALE, 0, PRICE_SCALE, 0)];
    assert_eq!(indicators::day_change_percent(&pts), None);
}

#[test]
fn windowed_metrics_absent_when_series_is_short() {
    let pts = flat_series(5, PRICE_SCALE);
    assert_eq!(indicators::sma(&pts, 7), None);
    assert_eq!(indicators::ema(&pts, 30), None);
    assert_eq!(indicators::rsi(&pts, 14), None);
    assert_eq!(indicators::atr(&pts, 14), None);
    assert_eq!(indicators::macd(&pts), None);
    assert_eq!(indicators::bollinger(&pts, 20), (None, None));
    assert_eq!(indicators::max_drawdown(&pts, 30), None);
    assert_eq!(indicators::cumulative_gain(&pts, 30), None);
    assert_eq!(indicators::volume_avg(&pts, 30), None);
    assert_eq!(indicators::volatility(&pts, 30), None);
}

#[test]
fn bollinger_bands_around_constant_series_collapse_to_the_mean() {
    let pts = flat_series(20, 7 * PRICE_SCALE);
    let (upper, lower) = indicators::bollinger(&pts, 20);
    assert_eq!(upper, Some(7 * PRICE_SCALE));
    assert_eq!(lower, Some(7 * PRICE_SCALE));
    assert_eq!(indicators::volatility(&pts, 20), Some(0));
}

#[test]
fn atr_is_the_mean_high_low_range() {
    let mut pts = Vec::new();
    for i in 0..14i64 {
        // range of 2.0 on every candle
        pts.push(candle(i, 10 * PRICE_SCALE, 11 * PRICE_SCALE, 9 * PRICE_SCALE, 10 * PRICE_SCALE, 0));
    }
    assert_eq!(indicators::atr(&pts, 14), Some(2 * PRICE_SCALE));
}

#[test]
fn max_drawdown_is_min_close_minus_max_close() {
    let mut pts = Vec::new();
    let closes = [5i64, 9, 3, 7, 6];
    for (i, c) in closes.iter().enumerate() {
        let v = *c * PRICE_SCALE;
        pts.push(candle(i as i64, v, v, v, v, 0));
    }
    assert_eq!(indicators::max_drawdown(&pts, 5), Some(-6 * PRICE_SCALE));
}

#[test]
fn trend_compares_first_and_last_close() {
    let up = vec![
        candle(0, PRICE_SCALE, PRICE_SCALE, PRICE_SCALE, PRICE_SCALE, 0),
        candle(1, PRICE_SCALE, 2 * PRICE_SCALE, PRICE_SCALE, 2 * PRICE_SCALE, 0),
    ];
    assert_eq!(indicators::trend(&up).as_deref(), Some("up"));
    let down = vec![
        candle(0, 2 * PRICE_SCALE, 2 * PRICE_SCALE, 2 * PRICE_SCALE, 2 * PRICE_SCALE, 0),
        candle(1, PRICE_SCALE, PRICE_SCALE, PRICE_SCALE, PRICE_SCALE, 0),
    ];
    assert_eq!(indicators::trend(&down).as_deref(), Some("down"));
    assert_eq!(indicators::trend(&Vec::new()), None);
}

#[test]
fn cumulative_gain_sums_close_minus_open() {
    let mut pts = Vec::new();
    for i in 0..30i64 {
        let open = 10 * PRICE_SCALE;
        let close = open + PRICE_SCALE / 2;
        pts.push(candle(i, open, close, open, close, 0));
    }
    assert_eq!(indicators::cumulative_gain(&pts, 30), Some(15 * PRICE_SCALE));
}

#[test]
fn volume_avg_is_the_mean_volume() {
    let mut pts = Vec::new();
    for i in 0..30i64 {
        pts.push(candle(i, 0, 0, 0, 0, (i % 2 + 1) * 1000));
    }
    // volumes alternate 1000, 2000 -> mean 1500
    assert_eq!(indicators::volume_avg(&pts, 30), Some(1500));
}

#[test]
fn builder_concatenates_sorts_and_derives() {
    // two segments, handed over newest first; the builder must sort
    let seg_late = StockSegment {
        start_date: 10,
        end_date: 12,
        interval: TimeInterval::Day,
        data_points: vec![
            candle(10, 2 * PRICE_SCALE, 2 * PRICE_SCALE, 2 * PRICE_SCALE, 2 * PRICE_SCALE, 0),
            candle(12, 3 * PRICE_SCALE, 3 * PRICE_SCALE, 3 * PRICE_SCALE, 3 * PRICE_SCALE, 0),
        ],
    };
    let seg_early = StockSegment {
        start_date: 0,
        end_date: 2,
        interval: TimeInterval::Day,
        data_points: vec![
            candle(0, 9 * PRICE_SCALE, 9 * PRICE_SCALE, 9 * PRICE_SCALE, 9 * PRICE_SCALE, 0),
            candle(2, 8 * PRICE_SCALE, 8 * PRICE_SCALE, 8 * PRICE_SCALE, 8 * PRICE_SCALE, 0),
        ],
    };
    let insights = StockInsightsBuilder::build(&vec![seg_late, seg_early]);
    // last point after sorting is the one at timestamp 12
    assert_eq!(insights.last_price, Some(3 * PRICE_SCALE));
    // trend compares the close at t=0 (9.0) with the close at t=12 (3.0)
    assert_eq!(insights.trend.as_deref(), Some("down"));
    assert_eq!(insights.sma_7, None);
    assert_eq!(insights.price_vs_sector, Some(3 * PRICE_SCALE / 100));
}

#[test]
fn builder_of_empty_segments_has_no_metrics() {
    let insights = StockInsightsBuilder::build(&Vec::new());
    assert_eq!(insights.last_price, None);
    assert_eq!(insights.trend, None);
    assert_eq!(insights.rsi_14, None);
    assert_eq!(insights.alert_overbought, None);
    assert_eq!(insights.alert_oversold, None);
}

#[test]
fn alerts_follow_rsi_thresholds() {
    // 14 all-gain candles -> RSI 100 -> overbought, not oversold
    let mut pts = Vec::new();
    for i in 0..14i64 {
        let open = 100 * PRICE_SCALE;
        let close = open + PRICE_SCALE;
        pts.push(candle(i, open, close, open, close, PRICE_SCALE));
    }
    let seg = StockSegment { start_date: 0, end_date: 13, interval: TimeInterval::Day, data_points: pts };
    let insights = StockInsightsBuilder::build(&vec![seg]);
    assert_eq!(insights.rsi_14, Some(100 * PRICE_SCALE));
    assert_eq!(insights.alert_overbought, Some(true));
    assert_eq!(insights.alert_oversold, Some(false));
}
