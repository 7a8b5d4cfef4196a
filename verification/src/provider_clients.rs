use vstd::prelude::*;

verus! {

/// Handle for the Alpha Vantage quote API. The wire calls themselves are
/// I/O and live with the embedding program; the core only carries the
/// configuration they need.
#[derive(Debug)]
pub struct AlphaVantageRepository {
    pub api_key: String,
}

impl AlphaVantageRepository {
    pub fn new(api_key: String) -> (r: Self)
        ensures
            r.api_key@ == api_key@,
    {
        AlphaVantageRepository { api_key }
    }
}

/// Handle for the Stooq endpoint; it needs no configuration.
#[derive(Debug)]
pub struct StooqRepository;

impl StooqRepository {
    pub fn new() -> (r: Self)
    {
        StooqRepository
    }
}

/// Handle for the Yahoo Finance quote and chart APIs; it needs no
/// configuration.
#[derive(Debug)]
pub struct YahooFinanceRepository;

impl YahooFinanceRepository {
    pub fn new() -> (r: Self)
    {
        YahooFinanceRepository
    }
}

} // verus!
