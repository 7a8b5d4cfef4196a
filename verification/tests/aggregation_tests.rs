use marketpulse::generic_stock_data_dto::{GenericStockDataDTO, record_from_points};
use marketpulse::memory_stock_repository::MemoryStockRepository;
use marketpulse::fake_stock_repository::FakeStockRepository;
use marketpulse::stock_repository::StockRepository;
use marketpulse::stock_manager::StockManager;
use marketpulse::time_series::{StockPoint, TimeInterval, PRICE_SCALE};

fn simple_point(ts: i64, price: i64) -> StockPoint {
    StockPoint { timestamp: ts, open: price, high: price, low: price, close: price, volume: 100 }
}

fn record_for(symbol: &str, provider: &str, base: i64) -> GenericStockDataDTO {
    let points = vec![simple_point(0, base), simple_point(1, base + PRICE_SCALE)];
    record_from_points(
        symbol.to_string(),
        Some(provider.to_string()),
        Some(42),
        TimeInterval::Day,
        points,
    )
    .expect("well-formed points make a record")
}

#[test]
fn locally_stored_symbol_answers_from_the_store() {
    let mut local = MemoryStockRepository::new();
    local.save_stock_dto(&record_for("AAPL", "seed", 10 * PRICE_SCALE)).unwrap();
    let mut external = MemoryStockRepository::new();
    external.save_stock_dto(&record_for("AAPL", "external", 99 * PRICE_SCALE)).unwrap();

    let mut manager = StockManager::new(local, vec![external]);
    let got = manager.get_stock_dto("AAPL").expect("stored symbol must answer");
    // the stored record answers, not the provider's
    assert_eq!(got.provider.as_deref(), Some("seed"));
    assert_eq!(got.symbol, "AAPL");
}

#[test]
fn first_external_hit_answers_and_warms_the_store() {
    let local = MemoryStockRepository::new();
    let empty_provider = MemoryStockRepository::new();
    let mut second_provider = MemoryStockRepository::new();
    second_provider.save_stock_dto(&record_for("MSFT", "provider-two", 7 * PRICE_SCALE)).unwrap();

    let mut manager = StockManager::new(local, vec![empty_provider, second_provider]);
    let first = manager.get_stock_dto("MSFT").expect("provider data must answer");
    assert_eq!(first.provider.as_deref(), Some("provider-two"));

    // warm-up: the second lookup is served by the local store and returns
    // the identical record
    let second = manager.get_stock_dto("MSFT").expect("warmed symbol must answer");
    assert_eq!(second.provider.as_deref(), Some("provider-two"));
    assert_eq!(second.historical_segments.len(), first.historical_segments.len());
    assert_eq!(
        second.historical_segments[0].data_points,
        first.historical_segments[0].data_points,
    );
}

#[test]
fn warmed_up_random_provider_stops_being_consulted() {
    // a random provider invents a fresh series on every fetch; after the
    // first answer is persisted, later lookups must repeat it exactly
    let local = MemoryStockRepository::new();
    let provider = FakeStockRepository::new();
    let mut manager = StockManager::new(local, vec![provider]);
    let first = manager.get_stock_dto("RND").expect("the simulator always answers");
    let second = manager.get_stock_dto("RND").expect("the warmed store answers");
    assert_eq!(
        first.historical_segments[0].data_points,
        second.historical_segments[0].data_points,
    );
}

#[test]
fn all_sources_empty_yield_nothing() {
    let local = MemoryStockRepository::new();
    let provider_a = MemoryStockRepository::new();
    let provider_b = MemoryStockRepository::new();
    let mut manager = StockManager::new(local, vec![provider_a, provider_b]);
    assert!(manager.get_stock_dto("NONE").is_none());
    // and the miss is not sticky: asking again still just yields nothing
    assert!(manager.get_stock_dto("NONE").is_none());
}

#[test]
fn provider_order_decides_on_double_hit() {
    let local = MemoryStockRepository::new();
    let mut provider_a = MemoryStockRepository::new();
    provider_a.save_stock_dto(&record_for("TSLA", "first", PRICE_SCALE)).unwrap();
    let mut provider_b = MemoryStockRepository::new();
    provider_b.save_stock_dto(&record_for("TSLA", "second", 2 * PRICE_SCALE)).unwrap();
    let mut manager = StockManager::new(local, vec![provider_a, provider_b]);
    let got = manager.get_stock_dto("TSLA").unwrap();
    assert_eq!(got.provider.as_deref(), Some("first"));
}

#[test]
fn store_roundtrip_and_overwrite() {
    let mut store = MemoryStockRepository::new();
    store.save_stock_dto(&record_for("IBM", "v1", PRICE_SCALE)).unwrap();
    store.save_stock_dto(&record_for("IBM", "v2", 2 * PRICE_SCALE)).unwrap();
    store.save_stock_dto(&record_for("ACN", "v1", 3 * PRICE_SCALE)).unwrap();
    let got = store.get_stock_dto("IBM").unwrap().expect("saved symbol answers");
    assert_eq!(got.provider.as_deref(), Some("v2"));
    assert!(store.get_stock_dto("GOOG").unwrap().is_none());
}

#[test]
fn simulated_provider_builds_thirty_plausible_candles() {
    let mut fake = FakeStockRepository::new();
    let rec = fake.get_stock_dto("SIM").unwrap().expect("the simulator always answers");
    assert_eq!(rec.provider.as_deref(), Some("FakeData"));
    assert_eq!(rec.historical_segments.len(), 1);
    let seg = &rec.historical_segments[0];
    assert_eq!(seg.data_points.len(), 30);
    for w in seg.data_points.windows(2) {
        assert!(w[0].timestamp < w[1].timestamp);
    }
    for p in &seg.data_points {
        assert!(p.high >= p.open && p.high >= p.close);
        assert!(p.low <= p.open && p.low <= p.close);
        assert!(p.volume >= 800 * PRICE_SCALE && p.volume < 2000 * PRICE_SCALE);
        assert!(seg.start_date <= p.timestamp && p.timestamp <= seg.end_date);
    }
    // the record carries its derived snapshot
    assert!(rec.insights().last_price.is_some());
}
