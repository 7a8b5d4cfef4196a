use vstd::prelude::*;
use crate::generic_stock_data_dto::{GenericStockDataDTO, StockRecordView};

verus! {

/// Transport or parse failure reported by one source; logged and contained,
/// never thrown across the aggregation boundary.
#[derive(Debug)]
pub struct SourceError {
    pub message: String,
}

/// Store write failure; logged, never fails the read path.
#[derive(Debug)]
pub struct PersistenceError {
    pub message: String,
}

/// The capability implemented by the local store and by every external
/// provider. A source is modelled by three ghost observables: how many
/// fetches it has served (`calls`), the records it is known to hold
/// (`stored`), and whether `stored` fully describes every fetch outcome
/// (`complete`). A deterministic store is complete; a source whose answers
/// depend on the outside world reports itself incomplete and promises only
/// that whatever it returns is well-formed.
pub trait StockRepository: Sized {
    /// Number of fetches this source has served.
    spec fn calls(&self) -> nat;

    /// The records this source is known to hold, by symbol.
    spec fn stored(&self) -> Map<Seq<char>, StockRecordView>;

    /// Whether `stored` fully describes every fetch outcome.
    spec fn complete(&self) -> bool;

    /// Fetches the record for a symbol. Failures are returned, never thrown.
    fn get_stock_dto(&mut self, symbol: &str) -> (r: Result<Option<GenericStockDataDTO>, SourceError>)
        ensures
            final(self).calls() == old(self).calls() + 1,
            final(self).stored() == old(self).stored(),
            final(self).complete() == old(self).complete(),
            (match r {
                Ok(Some(rec)) => rec.wf(),
                _ => true,
            }),
            old(self).complete() ==> (match r {
                Ok(Some(rec)) => old(self).stored().contains_key(symbol@)
                    && rec@ == old(self).stored()[symbol@],
                Ok(None) => !old(self).stored().contains_key(symbol@),
                Err(_) => false,
            }),
    ;

    /// Persists one record, keyed by its symbol.
    fn save_stock_dto(&mut self, dto: &GenericStockDataDTO) -> (r: Result<(), PersistenceError>)
        requires
            dto.wf(),
        ensures
            final(self).calls() == old(self).calls(),
            final(self).complete() == old(self).complete(),
            old(self).complete() ==> (match r {
                Ok(_) => final(self).stored() == old(self).stored().insert(dto.symbol@, dto@),
                Err(_) => final(self).stored() == old(self).stored(),
            }),
            !old(self).complete() ==> final(self).stored() == old(self).stored(),
    ;
}

/// The source is known to hold a non-empty record for the symbol.
pub open spec fn source_has<S: StockRepository>(s: S, sym: Seq<char>) -> bool {
    &&& s.complete()
    &&& s.stored().contains_key(sym)
    &&& crate::generic_stock_data_dto::record_non_empty(s.stored()[sym])
}

} // verus!
