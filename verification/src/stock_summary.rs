use vstd::prelude::*;

verus! {

/// Lightweight search-result projection: a symbol, a display name, and the
/// provider it came from. Independent of time-series data.
#[derive(Debug)]
pub struct StockSummary {
    pub symbol: String,
    pub name: String,
    pub provider: String,
}

pub ghost struct StockSummaryView {
    pub symbol: Seq<char>,
    pub name: Seq<char>,
    pub provider: Seq<char>,
}

impl View for StockSummary {
    type V = StockSummaryView;

    open spec fn view(&self) -> StockSummaryView {
        StockSummaryView { symbol: self.symbol@, name: self.name@, provider: self.provider@ }
    }
}

impl StockSummary {
    pub fn new(symbol: &str, name: &str, provider: &str) -> (r: Self)
        ensures
            r@ == (StockSummaryView { symbol: symbol@, name: name@, provider: provider@ }),
    {
        StockSummary {
            symbol: symbol.to_owned(),
            name: name.to_owned(),
            provider: provider.to_owned(),
        }
    }
}

impl Clone for StockSummary {
    fn clone(&self) -> (res: Self)
        ensures
            res@ == self@,
    {
        StockSummary {
            symbol: self.symbol.clone(),
            name: self.name.clone(),
            provider: self.provider.clone(),
        }
    }
}

} // verus!
