use marketpulse::stock_summary::StockSummary;
use marketpulse::summary_index::SummaryIndex;
use marketpulse::utils::{can_be_symbol, str_eq, str_eq_ignore_case};

fn index_with(entries: &[(&str, &str)]) -> SummaryIndex {
    let mut index = SummaryIndex::new();
    for (symbol, name) in entries {
        index.add_stock(StockSummary::new(symbol, name, "test"));
    }
    index
}

#[test]
fn ticker_shaped_query_matches_the_symbol_field() {
    let index = index_with(&[("AAPL", "Apple Inc."), ("MSFT", "Microsoft Corporation")]);
    let hits = index.search_by_name("AAPL");
    assert_eq!(hits.len(), 1);
    assert_eq!(hits[0].symbol, "AAPL");
}

#[test]
fn free_text_query_matches_the_display_name() {
    let index = index_with(&[("AAPL", "Apple Inc."), ("MSFT", "Microsoft Corporation")]);
    let hits = index.search_by_name("Apple");
    assert_eq!(hits.len(), 1);
    assert_eq!(hits[0].symbol, "AAPL");
}

#[test]
fn ticker_shaped_query_does_not_search_names() {
    // "PLE" is ticker-shaped, occurs in the name "Apple" but not in any
    // symbol: the heuristic must route it to the symbol field and miss
    let index = index_with(&[("AAPL", "Apple Inc.")]);
    assert!(index.search_by_name("PLE").is_empty());
}

#[test]
fn search_is_case_insensitive_within_the_routed_field() {
    let index = index_with(&[("AAPL", "Apple Inc.")]);
    // lowercase query is not ticker-shaped, so it is matched against names
    let hits = index.search_by_name("apple");
    assert_eq!(hits.len(), 1);
    // substring match inside the name
    let hits2 = index.search_by_name("pple in");
    assert_eq!(hits2.len(), 1);
}

#[test]
fn search_results_are_capped_at_ten() {
    let mut index = SummaryIndex::new();
    for i in 0..15 {
        index.add_stock(StockSummary::new("SYM", &format!("Common Name {}", i), "test"));
    }
    let hits = index.search_by_name("Common");
    assert_eq!(hits.len(), 10);
    assert_eq!(hits[0].name, "Common Name 0");
    assert_eq!(hits[9].name, "Common Name 9");
}

#[test]
fn search_keeps_index_order() {
    let index = index_with(&[("A", "Zeta Fund"), ("B", "Zeta Trust"), ("C", "Other")]);
    let hits = index.search_by_name("Zeta");
    assert_eq!(hits.len(), 2);
    assert_eq!(hits[0].symbol, "A");
    assert_eq!(hits[1].symbol, "B");
}

#[test]
fn ticker_shape_heuristic() {
    assert!(can_be_symbol("AAPL"));
    assert!(can_be_symbol("A"));
    assert!(can_be_symbol(""));
    assert!(!can_be_symbol("Apple"));
    assert!(!can_be_symbol("ABCDEF"));
    assert!(!can_be_symbol("AAP1"));
    assert!(!can_be_symbol("aapl"));
}

#[test]
fn string_helpers_compare_exact_and_folded() {
    assert!(str_eq("abc", "abc"));
    assert!(!str_eq("abc", "abd"));
    assert!(!str_eq("abc", "abcd"));
    assert!(str_eq_ignore_case("NaIvE", "naive"));
    assert!(!str_eq_ignore_case("naive", "naive2"));
}

#[test]
fn summary_keeps_its_fields() {
    let s = StockSummary::new("IBM", "International Business Machines", "finnhub");
    assert_eq!(s.symbol, "IBM");
    assert_eq!(s.name, "International Business Machines");
    assert_eq!(s.provider, "finnhub");
}
