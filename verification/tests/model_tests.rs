use marketpulse::generic_stock_data_dto::{GenericStockDataDTO, record_from_points};
use marketpulse::num::{div_trunc, div_trunc_price, isqrt, clamp_to_price};
use marketpulse::time_series::{build_stock_points, check_points, StockPoint, StockSegment,
    TimeInterval, PRICE_SCALE, PRICE_LIMIT};

fn p(ts: i64, price: i64) -> StockPoint {
    StockPoint { timestamp: ts, open: price, high: price, low: price, close: price, volume: 1 }
}

#[test]
fn division_truncates_toward_zero() {
    assert_eq!(div_trunc(7, 2), 3);
    assert_eq!(div_trunc(-7, 2), -3);
    assert_eq!(div_trunc(7, -2), -3);
    assert_eq!(div_trunc(-7, -2), 3);
    assert_eq!(div_trunc(0, 5), 0);
    assert_eq!(div_trunc_price(-250), -2);
}

#[test]
fn integer_square_root_is_the_floor() {
    assert_eq!(isqrt(0), 0);
    assert_eq!(isqrt(1), 1);
    assert_eq!(isqrt(10), 3);
    assert_eq!(isqrt(144), 12);
    assert_eq!(isqrt(145), 12);
}

#[test]
fn clamping_respects_the_price_range() {
    assert_eq!(clamp_to_price(5), 5);
    assert_eq!(clamp_to_price((PRICE_LIMIT as i128) + 1), PRICE_LIMIT);
    assert_eq!(clamp_to_price(-(PRICE_LIMIT as i128) - 1), -PRICE_LIMIT);
}

#[test]
fn candle_arrays_zip_into_points() {
    let t = vec![1, 2, 3];
    let o = vec![10, 11, 12];
    let h = vec![20, 21, 22];
    let l = vec![5, 6, 7];
    let c = vec![15, 16, 17];
    let v = vec![100, 200, 300];
    let pts = build_stock_points(&t, &o, &h, &l, &c, &v);
    assert_eq!(pts.len(), 3);
    assert_eq!(pts[1].timestamp, 2);
    assert_eq!(pts[1].open, 11);
    assert_eq!(pts[1].high, 21);
    assert_eq!(pts[1].low, 6);
    assert_eq!(pts[1].close, 16);
    assert_eq!(pts[1].volume, 200);
}

#[test]
fn point_checks_catch_disorder_and_bad_values() {
    assert!(check_points(&vec![p(1, 5), p(2, 6)]));
    assert!(!check_points(&vec![p(2, 5), p(1, 6)]));
    let mut bad = vec![p(1, 5)];
    bad[0].volume = -1;
    assert!(!check_points(&bad));
    let mut huge = vec![p(1, 5)];
    huge[0].close = PRICE_LIMIT + 1;
    assert!(!check_points(&huge));
    assert!(check_points(&Vec::new()));
}

#[test]
fn record_assembly_accepts_only_healthy_runs() {
    let rec = record_from_points(
        "NVDA".to_string(),
        Some("test".to_string()),
        Some(7),
        TimeInterval::Day,
        vec![p(10, PRICE_SCALE), p(20, 2 * PRICE_SCALE)],
    )
    .expect("sorted points build a record");
    assert_eq!(rec.symbol, "NVDA");
    assert_eq!(rec.provider.as_deref(), Some("test"));
    assert_eq!(rec.last_update, Some(7));
    assert_eq!(rec.historical_segments.len(), 1);
    assert_eq!(rec.historical_segments[0].start_date, 10);
    assert_eq!(rec.historical_segments[0].end_date, 20);
    assert!(rec.is_non_empty());

    assert!(record_from_points(
        "NVDA".to_string(),
        None,
        None,
        TimeInterval::Day,
        Vec::new(),
    )
    .is_none());
    assert!(record_from_points(
        "NVDA".to_string(),
        None,
        None,
        TimeInterval::Day,
        vec![p(20, PRICE_SCALE), p(10, PRICE_SCALE)],
    )
    .is_none());
}

#[test]
fn record_clone_preserves_everything() {
    let rec = record_from_points(
        "AMD".to_string(),
        Some("x".to_string()),
        Some(1),
        TimeInterval::Hour,
        vec![p(1, 3 * PRICE_SCALE)],
    )
    .unwrap();
    let copy = rec.clone();
    assert_eq!(copy.symbol, rec.symbol);
    assert_eq!(copy.provider, rec.provider);
    assert_eq!(copy.historical_segments[0].data_points, rec.historical_segments[0].data_points);
    assert_eq!(copy.insights().last_price, rec.insights().last_price);
}

#[test]
fn constructed_record_computes_its_snapshot() {
    let seg = StockSegment {
        start_date: 0,
        end_date: 1,
        interval: TimeInterval::Day,
        data_points: vec![p(0, 4 * PRICE_SCALE), p(1, 6 * PRICE_SCALE)],
    };
    let rec = GenericStockDataDTO::new("T".to_string(), None, None, vec![seg]);
    let ins = rec.insights();
    assert_eq!(ins.last_price, Some(6 * PRICE_SCALE));
    assert_eq!(ins.trend.as_deref(), Some("up"));
    assert_eq!(ins.day_change, Some(0));
}

#[test]
fn point_count_cap_is_enforced() {
    let mut long = Vec::new();
    for i in 0..100_001i64 {
        long.push(p(i, PRICE_SCALE));
    }
    assert!(!check_points(&long));
    long.pop();
    assert!(check_points(&long));
}
