use vstd::prelude::*;
use crate::generic_stock_data_dto::{GenericStockDataDTO, record_non_empty};
use crate::stock_repository::{StockRepository, source_has};

verus! {

/// Cache-aside aggregation over an ordered chain of data sources: the local
/// store answers first; on a miss the external providers are tried in
/// priority order, the first non-empty answer is written back to the local
/// store (best effort) and returned. Per-source failures are contained; the
/// only caller-visible outcomes are a record or nothing.
pub struct StockManager<L: StockRepository, P: StockRepository> {
    pub local_repo: L,
    pub external_repos: Vec<P>,
}

impl<L: StockRepository, P: StockRepository> StockManager<L, P> {
    pub fn new(local_repo: L, external_repos: Vec<P>) -> (r: Self)
        ensures
            r.local_repo == local_repo,
            r.external_repos == external_repos,
    {
        StockManager { local_repo, external_repos }
    }

    /// Fetches the freshest-known record for `symbol` with minimal external
    /// calls.
    ///
    /// The contract pins the three caller-visible laws of the chain: a
    /// locally stored non-empty record is returned without consulting any
    /// provider; on a local miss, the first provider known to hold data
    /// answers, later providers are left unasked and the answer is written
    /// back to the local store unless persistence fails; and when no source
    /// holds data the result is empty, with every provider asked exactly
    /// once and nothing thrown.
    pub fn get_stock_dto(&mut self, symbol: &str) -> (r: Option<GenericStockDataDTO>)
        ensures
            // whatever comes back is well-formed, non-empty data
            (match r {
                Some(rec) => rec.wf() && record_non_empty(rec@),
                None => true,
            }),
            // the chain's shape and knowledge are preserved
            final(self).external_repos.len() == old(self).external_repos.len(),
            final(self).local_repo.complete() == old(self).local_repo.complete(),
            final(self).local_repo.calls() == old(self).local_repo.calls() + 1,
            forall|i: int| 0 <= i < old(self).external_repos.len()
                ==> (#[trigger] final(self).external_repos[i]).stored() == old(self).external_repos[i].stored()
                    && final(self).external_repos[i].complete() == old(self).external_repos[i].complete(),
            // cache hit: the stored record answers and no provider is asked
            (old(self).local_repo.complete() && source_has(old(self).local_repo, symbol@)) ==> ({
                &&& (match r {
                    Some(rec) => rec@ == old(self).local_repo.stored()[symbol@],
                    None => false,
                })
                &&& forall|i: int| 0 <= i < old(self).external_repos.len()
                    ==> (#[trigger] final(self).external_repos[i]).calls() == old(self).external_repos[i].calls()
                &&& final(self).local_repo.stored() == old(self).local_repo.stored()
            }),
            // first provider hit: its record answers, the chain stops there,
            // and the local store holds it afterwards unless the write failed
            forall|k: int| (0 <= k < old(self).external_repos.len()
                && old(self).local_repo.complete() && !source_has(old(self).local_repo, symbol@)
                && source_has(#[trigger] old(self).external_repos[k], symbol@)
                && (forall|j: int| 0 <= j < k ==> (#[trigger] old(self).external_repos[j]).complete()
                        && !source_has(old(self).external_repos[j], symbol@))) ==> ({
                &&& (match r {
                    Some(rec) => rec@ == old(self).external_repos[k].stored()[symbol@]
                        && (final(self).local_repo.stored()
                                == old(self).local_repo.stored().insert(rec@.symbol, rec@)
                            || final(self).local_repo.stored() == old(self).local_repo.stored()),
                    None => false,
                })
                &&& forall|j: int| 0 <= j <= k
                    ==> (#[trigger] final(self).external_repos[j]).calls() == old(self).external_repos[j].calls() + 1
                &&& forall|j: int| k < j < old(self).external_repos.len()
                    ==> (#[trigger] final(self).external_repos[j]).calls() == old(self).external_repos[j].calls()
            }),
            // every source empty: the result is empty and each provider was
            // asked exactly once
            (old(self).local_repo.complete() && !source_has(old(self).local_repo, symbol@)
                && (forall|i: int| 0 <= i < old(self).external_repos.len()
                        ==> (#[trigger] old(self).external_repos[i]).complete()
                            && !source_has(old(self).external_repos[i], symbol@))) ==> ({
                &&& r is None
                &&& final(self).local_repo.stored() == old(self).local_repo.stored()
                &&& forall|i: int| 0 <= i < old(self).external_repos.len()
                    ==> (#[trigger] final(self).external_repos[i]).calls() == old(self).external_repos[i].calls() + 1
            }),
    {
        let local_result = self.local_repo.get_stock_dto(symbol);
        match local_result {
            Ok(Some(dto)) => {
                if dto.is_non_empty() {
                    return Some(dto);
                }
            },
            _ => {},
        }

        let n = self.external_repos.len();
        let mut i: usize = 0;
        while i < n
            invariant
                0 <= i <= n,
                n == old(self).external_repos.len(),
                self.external_repos.len() == n,
                self.local_repo.complete() == old(self).local_repo.complete(),
                self.local_repo.stored() == old(self).local_repo.stored(),
                self.local_repo.calls() == old(self).local_repo.calls() + 1,
                old(self).local_repo.complete() ==> !source_has(old(self).local_repo, symbol@),
                forall|j: int| 0 <= j < n
                    ==> (#[trigger] self.external_repos[j]).stored() == old(self).external_repos[j].stored()
                        && self.external_repos[j].complete() == old(self).external_repos[j].complete(),
                forall|j: int| 0 <= j < i
                    ==> (#[trigger] self.external_repos[j]).calls() == old(self).external_repos[j].calls() + 1,
                forall|j: int| i <= j < n
                    ==> (#[trigger] self.external_repos[j]).calls() == old(self).external_repos[j].calls(),
                forall|j: int| 0 <= j < i ==> ((#[trigger] old(self).external_repos[j]).complete()
                    ==> !source_has(old(self).external_repos[j], symbol@)),
            decreases n - i,
        {
            let ghost prev = self.external_repos@;
            let mut source = self.external_repos.remove(i);
            let fetched = source.get_stock_dto(symbol);
            let ghost src_snap = source;
            self.external_repos.insert(i, source);
            proof {
                assert(self.external_repos@ =~= prev.update(i as int, src_snap));
            }
            match fetched {
                Ok(Some(dto)) => {
                    if dto.is_non_empty() {
                        match self.local_repo.save_stock_dto(&dto) {
                            Ok(_) => {},
                            Err(_) => {},
                        }
                        proof {
                            assert forall|k: int| (0 <= k < n
                                && old(self).local_repo.complete()
                                && !source_has(old(self).local_repo, symbol@)
                                && source_has(#[trigger] old(self).external_repos[k], symbol@)
                                && (forall|j: int| 0 <= j < k
                                        ==> (#[trigger] old(self).external_repos[j]).complete()
                                            && !source_has(old(self).external_repos[j], symbol@)))
                                implies k == i as int by {
                                if k > i as int {
                                    assert(old(self).external_repos[i as int].complete());
                                    assert(!source_has(old(self).external_repos[i as int], symbol@));
                                    assert(prev[i as int].stored()
                                        == old(self).external_repos[i as int].stored());
                                    assert(prev[i as int].stored().contains_key(symbol@));
                                }
                            }
                        }
                        return Some(dto);
                    }
                },
                _ => {},
            }
            i += 1;
        }
        None
    }
}

} // verus!
