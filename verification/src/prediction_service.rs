use vstd::prelude::*;
use crate::predicators::{StockPredictor, NaivePredictor, SmaPredictor, EmaPredictor,
    LinearRegressionPredictor, ArPredictor, spec_naive, spec_sma_forecast, spec_ema_forecast,
    spec_linreg, spec_ar};
use crate::prediction_point::{PredictionPoint, history_ok, MAX_NOW};
use crate::clock::now_timestamp;
use crate::utils::{str_eq_ignore_case, eq_ci};

verus! {

/// What the registry answers for a method name: the strategy whose name
/// matches case-insensitively, or an empty sequence for an unknown name.
pub open spec fn spec_dispatch(method: Seq<char>, now: i64, h: Seq<PredictionPoint>) -> Seq<PredictionPoint> {
    if eq_ci(method, "NAIVE"@) {
        spec_naive(now, h)
    } else if eq_ci(method, "SMA"@) {
        spec_sma_forecast(now, h)
    } else if eq_ci(method, "EMA"@) {
        spec_ema_forecast(now, h)
    } else if eq_ci(method, "LINEAR_REGRESSION"@) {
        spec_linreg(now, h)
    } else if eq_ci(method, "AR"@) {
        spec_ar(now, h)
    } else {
        Seq::empty()
    }
}

/// The registry of forecasting strategies, selected by case-insensitive
/// method name; an unknown name yields an empty forecast, never an error.
pub struct PredictionService {
    naive: NaivePredictor,
    sma: SmaPredictor,
    ema: EmaPredictor,
    linear_regression: LinearRegressionPredictor,
    ar: ArPredictor,
}

impl PredictionService {
    /// The registry with every built-in strategy installed.
    pub fn new() -> (r: Self)
    {
        PredictionService {
            naive: NaivePredictor,
            sma: SmaPredictor,
            ema: EmaPredictor,
            linear_regression: LinearRegressionPredictor,
            ar: ArPredictor,
        }
    }

    /// Forecast by method name from an explicit history, anchored at the
    /// system clock, clamped into the range the strategies accept.
    pub fn predict_from_history(&self, method: &str, history: &Vec<PredictionPoint>)
        -> (r: Vec<PredictionPoint>)
        requires
            history_ok(history@),
        ensures
            exists|now: i64| 0 <= now <= MAX_NOW && r@ == spec_dispatch(method@, now, history@),
    {
        let raw = now_timestamp();
        let now: i64 = if raw < 0 {
            0
        } else if raw > MAX_NOW {
            MAX_NOW
        } else {
            raw
        };
        let r = self.predict_from_history_at(now, method, history);
        proof {
            assert(0 <= now <= MAX_NOW && r@ == spec_dispatch(method@, now, history@));
        }
        r
    }

    /// Forecast by method name from an explicit history, anchored at `now`.
    pub fn predict_from_history_at(&self, now: i64, method: &str, history: &Vec<PredictionPoint>)
        -> (r: Vec<PredictionPoint>)
        requires
            history_ok(history@),
            0 <= now <= MAX_NOW,
        ensures
            r@ == spec_dispatch(method@, now, history@),
    {
        if str_eq_ignore_case(method, self.naive.method_name()) {
            self.naive.predict(now, history)
        } else if str_eq_ignore_case(method, self.sma.method_name()) {
            self.sma.predict(now, history)
        } else if str_eq_ignore_case(method, self.ema.method_name()) {
            self.ema.predict(now, history)
        } else if str_eq_ignore_case(method, self.linear_regression.method_name()) {
            self.linear_regression.predict(now, history)
        } else if str_eq_ignore_case(method, self.ar.method_name()) {
            self.ar.predict(now, history)
        } else {
            Vec::new()
        }
    }
}

} // verus!
