use marketpulse::prediction_point::{PredictionPoint, DAY_SECONDS};
use marketpulse::prediction_service::PredictionService;
use marketpulse::predicators::{StockPredictor, NaivePredictor, SmaPredictor, EmaPredictor,
    LinearRegressionPredictor, ArPredictor};
use marketpulse::time_series::PRICE_SCALE;

fn pp(ts: i64, close: i64) -> PredictionPoint {
    PredictionPoint::new(ts, close, close, close)
}

#[test]
fn naive_on_empty_history_pins_thirty_points_at_hundred() {
    let service = PredictionService::new();
    let r = service.predict_from_history_at(1_000_000, "NAIVE", &Vec::new());
    assert_eq!(r.len(), 30);
    for p in &r {
        assert_eq!(p.close, 100 * PRICE_SCALE);
        assert_eq!(p.upper, p.close);
        assert_eq!(p.lower, p.close);
    }
    assert_eq!(r[0].timestamp, 1_000_000 + DAY_SECONDS);
    assert_eq!(r[29].timestamp, 1_000_000 + 30 * DAY_SECONDS);
}

#[test]
fn ar_on_empty_history_is_empty() {
    let service = PredictionService::new();
    let r = service.predict_from_history_at(1_000_000, "AR", &Vec::new());
    assert!(r.is_empty());
}

#[test]
fn sma_and_ema_on_empty_history_are_empty() {
    let service = PredictionService::new();
    assert!(service.predict_from_history_at(0, "SMA", &Vec::new()).is_empty());
    assert!(service.predict_from_history_at(0, "EMA", &Vec::new()).is_empty());
}

#[test]
fn linear_regression_on_a_single_point_is_empty() {
    let service = PredictionService::new();
    let h = vec![pp(0, 5 * PRICE_SCALE)];
    assert!(service.predict_from_history_at(0, "LINEAR_REGRESSION", &h).is_empty());
}

#[test]
fn linear_regression_extrapolates_the_fitted_line() {
    // closes 1.0, 2.0, 3.0 at indices 0, 1, 2: slope 1, intercept 1
    let service = PredictionService::new();
    let h = vec![pp(0, PRICE_SCALE), pp(1, 2 * PRICE_SCALE), pp(2, 3 * PRICE_SCALE)];
    let r = service.predict_from_history_at(0, "LINEAR_REGRESSION", &h);
    assert_eq!(r.len(), 31);
    // index 3 forecasts 4.0, index 4 forecasts 5.0, and so on
    assert_eq!(r[0].close, 4 * PRICE_SCALE);
    assert_eq!(r[1].close, 5 * PRICE_SCALE);
    assert_eq!(r[30].close, 34 * PRICE_SCALE);
    assert_eq!(r[0].upper, r[0].close);
    assert_eq!(r[0].lower, r[0].close);
}

#[test]
fn ar_repeats_the_last_close_for_thirty_one_days() {
    let service = PredictionService::new();
    let h = vec![pp(0, 7 * PRICE_SCALE), pp(1, 9 * PRICE_SCALE)];
    let r = service.predict_from_history_at(500, "AR", &h);
    assert_eq!(r.len(), 31);
    for p in &r {
        assert_eq!(p.close, 9 * PRICE_SCALE);
    }
    assert_eq!(r[0].timestamp, 500 + DAY_SECONDS);
}

#[test]
fn sma_strategy_averages_the_twenty_highest_closes() {
    let service = PredictionService::new();
    // 25 closes: 1.0 .. 25.0; the 20 highest are 6.0 .. 25.0, mean 15.5
    let mut h = Vec::new();
    for i in 0..25i64 {
        h.push(pp(i, (i + 1) * PRICE_SCALE));
    }
    let r = service.predict_from_history_at(0, "SMA", &h);
    assert_eq!(r.len(), 31);
    assert_eq!(r[0].close, 15 * PRICE_SCALE + PRICE_SCALE / 2);
}

#[test]
fn ema_strategy_of_constant_history_is_that_constant() {
    let service = PredictionService::new();
    let mut h = Vec::new();
    for i in 0..10i64 {
        h.push(pp(i, 42 * PRICE_SCALE));
    }
    let r = service.predict_from_history_at(0, "EMA", &h);
    assert_eq!(r.len(), 31);
    for p in &r {
        assert_eq!(p.close, 42 * PRICE_SCALE);
    }
}

#[test]
fn unknown_method_yields_an_empty_forecast() {
    let service = PredictionService::new();
    let h = vec![pp(0, PRICE_SCALE), pp(1, PRICE_SCALE)];
    assert!(service.predict_from_history_at(0, "BOGUS", &h).is_empty());
}

#[test]
fn method_names_match_case_insensitively() {
    let service = PredictionService::new();
    let r = service.predict_from_history_at(0, "naive", &Vec::new());
    assert_eq!(r.len(), 30);
    let r2 = service.predict_from_history_at(0, "Linear_Regression", &vec![pp(0, PRICE_SCALE)]);
    assert!(r2.is_empty());
}

#[test]
fn forecast_timestamps_strictly_increase() {
    let service = PredictionService::new();
    let h = vec![pp(0, PRICE_SCALE), pp(1, 2 * PRICE_SCALE)];
    for method in ["NAIVE", "SMA", "EMA", "LINEAR_REGRESSION", "AR"] {
        let r = service.predict_from_history_at(10_000, method, &h);
        assert!(!r.is_empty());
        for w in r.windows(2) {
            assert!(w[0].timestamp < w[1].timestamp);
        }
    }
}

#[test]
fn clocked_forecast_uses_the_system_time() {
    let service = PredictionService::new();
    let r = service.predict_from_history("NAIVE", &Vec::new());
    assert_eq!(r.len(), 30);
    // the clock reads a present-day time, so every forecast point is in the future
    for p in &r {
        assert!(p.timestamp > 1_500_000_000);
        assert_eq!(p.close, 100 * PRICE_SCALE);
    }
}

#[test]
fn predictor_names_are_stable() {
    assert_eq!(NaivePredictor.method_name(), "NAIVE");
    assert_eq!(SmaPredictor.method_name(), "SMA");
    assert_eq!(EmaPredictor.method_name(), "EMA");
    assert_eq!(LinearRegressionPredictor.method_name(), "LINEAR_REGRESSION");
    assert_eq!(ArPredictor.method_name(), "AR");
}

#[test]
fn direct_predictor_calls_match_the_registry() {
    let h = vec![pp(0, 3 * PRICE_SCALE), pp(1, 5 * PRICE_SCALE)];
    let direct = NaivePredictor.predict(900, &h);
    let service = PredictionService::new();
    let via_registry = service.predict_from_history_at(900, "NAIVE", &h);
    assert_eq!(direct.len(), via_registry.len());
    for (a, b) in direct.iter().zip(via_registry.iter()) {
        assert_eq!(a.timestamp, b.timestamp);
        assert_eq!(a.close, b.close);
    }
}
