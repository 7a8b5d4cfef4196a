use vstd::prelude::*;

verus! {

/// Snapshot of derived scalars computed from a record's concatenated points.
/// Windowed metrics are `None` (not zero) when the series is shorter than
/// their window. All scaled by `PRICE_SCALE`.
#[derive(Debug)]
pub struct StockInsights {
    pub last_price: Option<i64>,
    pub day_change: Option<i64>,
    pub day_change_percent: Option<i64>,
    pub sma_7: Option<i64>,
    pub sma_30: Option<i64>,
    pub ema_7: Option<i64>,
    pub ema_30: Option<i64>,
    pub bollinger_upper: Option<i64>,
    pub bollinger_lower: Option<i64>,
    pub rsi_14: Option<i64>,
    pub macd: Option<i64>,
    pub atr_14: Option<i64>,
    pub max_drawdown_30d: Option<i64>,
    pub trend: Option<String>,
    pub cumulative_gain_30d: Option<i64>,
    pub volume_avg_30d: Option<i64>,
    pub volatility_30d: Option<i64>,
    pub price_vs_sector: Option<i64>,
    pub alert_overbought: Option<bool>,
    pub alert_oversold: Option<bool>,
}

pub ghost struct StockInsightsView {
    pub last_price: Option<int>,
    pub day_change: Option<int>,
    pub day_change_percent: Option<int>,
    pub sma_7: Option<int>,
    pub sma_30: Option<int>,
    pub ema_7: Option<int>,
    pub ema_30: Option<int>,
    pub bollinger_upper: Option<int>,
    pub bollinger_lower: Option<int>,
    pub rsi_14: Option<int>,
    pub macd: Option<int>,
    pub atr_14: Option<int>,
    pub max_drawdown_30d: Option<int>,
    pub trend: Option<Seq<char>>,
    pub cumulative_gain_30d: Option<int>,
    pub volume_avg_30d: Option<int>,
    pub volatility_30d: Option<int>,
    pub price_vs_sector: Option<int>,
    pub alert_overbought: Option<bool>,
    pub alert_oversold: Option<bool>,
}

pub open spec fn opt_int(o: Option<i64>) -> Option<int> {
    match o {
        Some(v) => Some(v as int),
        None => None,
    }
}

pub open spec fn opt_str(o: Option<String>) -> Option<Seq<char>> {
    match o {
        Some(v) => Some(v@),
        None => None,
    }
}

impl View for StockInsights {
    type V = StockInsightsView;

    open spec fn view(&self) -> StockInsightsView {
        StockInsightsView {
            last_price: opt_int(self.last_price),
            day_change: opt_int(self.day_change),
            day_change_percent: opt_int(self.day_change_percent),
            sma_7: opt_int(self.sma_7),
            sma_30: opt_int(self.sma_30),
            ema_7: opt_int(self.ema_7),
            ema_30: opt_int(self.ema_30),
            bollinger_upper: opt_int(self.bollinger_upper),
            bollinger_lower: opt_int(self.bollinger_lower),
            rsi_14: opt_int(self.rsi_14),
            macd: opt_int(self.macd),
            atr_14: opt_int(self.atr_14),
            max_drawdown_30d: opt_int(self.max_drawdown_30d),
            trend: opt_str(self.trend),
            cumulative_gain_30d: opt_int(self.cumulative_gain_30d),
            volume_avg_30d: opt_int(self.volume_avg_30d),
            volatility_30d: opt_int(self.volatility_30d),
            price_vs_sector: opt_int(self.price_vs_sector),
            alert_overbought: self.alert_overbought,
            alert_oversold: self.alert_oversold,
        }
    }
}

/// The all-absent snapshot, the value for an empty series.
pub open spec fn empty_insights() -> StockInsightsView {
    StockInsightsView {
        last_price: None,
        day_change: None,
        day_change_percent: None,
        sma_7: None,
        sma_30: None,
        ema_7: None,
        ema_30: None,
        bollinger_upper: None,
        bollinger_lower: None,
        rsi_14: None,
        macd: None,
        atr_14: None,
        max_drawdown_30d: None,
        trend: None,
        cumulative_gain_30d: None,
        volume_avg_30d: None,
        volatility_30d: None,
        price_vs_sector: None,
        alert_overbought: None,
        alert_oversold: None,
    }
}

impl StockInsights {
    /// A snapshot with every metric absent.
    pub fn new() -> (r: Self)
        ensures
            r@ == empty_insights(),
    {
        StockInsights {
            last_price: None,
            day_change: None,
            day_change_percent: None,
            sma_7: None,
            sma_30: None,
            ema_7: None,
            ema_30: None,
            bollinger_upper: None,
            bollinger_lower: None,
            rsi_14: None,
            macd: None,
            atr_14: None,
            max_drawdown_30d: None,
            trend: None,
            cumulative_gain_30d: None,
            volume_avg_30d: None,
            volatility_30d: None,
            price_vs_sector: None,
            alert_overbought: None,
            alert_oversold: None,
        }
    }
}

impl Default for StockInsights {
    fn default() -> (r: Self)
        ensures
            r@ == empty_insights(),
    {
        StockInsights::new()
    }
}

impl Clone for StockInsights {
    fn clone(&self) -> (res: Self)
        ensures
            res@ == self@,
    {
        StockInsights {
            last_price: self.last_price,
            day_change: self.day_change,
            day_change_percent: self.day_change_percent,
            sma_7: self.sma_7,
            sma_30: self.sma_30,
            ema_7: self.ema_7,
            ema_30: self.ema_30,
            bollinger_upper: self.bollinger_upper,
            bollinger_lower: self.bollinger_lower,
            rsi_14: self.rsi_14,
            macd: self.macd,
            atr_14: self.atr_14,
            max_drawdown_30d: self.max_drawdown_30d,
            trend: match &self.trend {
                Some(t) => Some(t.clone()),
                None => None,
            },
            cumulative_gain_30d: self.cumulative_gain_30d,
            volume_avg_30d: self.volume_avg_30d,
            volatility_30d: self.volatility_30d,
            price_vs_sector: self.price_vs_sector,
            alert_overbought: self.alert_overbought,
            alert_oversold: self.alert_oversold,
        }
    }
}

} // verus!
