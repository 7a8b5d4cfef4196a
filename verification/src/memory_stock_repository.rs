use vstd::prelude::*;
use crate::generic_stock_data_dto::{GenericStockDataDTO, StockRecordView};
use crate::stock_repository::{StockRepository, SourceError, PersistenceError};
use crate::utils::str_eq;

verus! {

/// The records of a run, keyed by symbol; a later entry overrides an
/// earlier one with the same symbol.
pub open spec fn map_of(s: Seq<GenericStockDataDTO>) -> Map<Seq<char>, StockRecordView>
    decreases s.len(),
{
    if s.len() == 0 {
        Map::empty()
    } else {
        map_of(s.drop_last()).insert(s.last().symbol@, s.last()@)
    }
}

pub open spec fn unique_symbols(s: Seq<GenericStockDataDTO>) -> bool {
    forall|i: int, j: int| 0 <= i < j < s.len() ==> (#[trigger] s[i].symbol@) != (#[trigger] s[j].symbol@)
}

proof fn lemma_map_of_contains(s: Seq<GenericStockDataDTO>, k: Seq<char>)
    ensures
        map_of(s).contains_key(k) <==> (exists|i: int| 0 <= i < s.len() && (#[trigger] s[i].symbol@) == k),
    decreases s.len(),
{
    if s.len() > 0 {
        lemma_map_of_contains(s.drop_last(), k);
        if s.last().symbol@ == k {
            assert(s[s.len() - 1].symbol@ == k);
        } else {
            if exists|i: int| 0 <= i < s.len() && (#[trigger] s[i].symbol@) == k {
                let i = choose|i: int| 0 <= i < s.len() && (#[trigger] s[i].symbol@) == k;
                assert(i < s.len() - 1);
                assert(s.drop_last()[i].symbol@ == k);
            }
            if exists|i: int| 0 <= i < s.drop_last().len() && (#[trigger] s.drop_last()[i].symbol@) == k {
                let i = choose|i: int| 0 <= i < s.drop_last().len() && (#[trigger] s.drop_last()[i].symbol@) == k;
                assert(s[i].symbol@ == k);
            }
        }
    }
}

proof fn lemma_map_of_lookup(s: Seq<GenericStockDataDTO>, i: int)
    requires
        unique_symbols(s),
        0 <= i < s.len(),
    ensures
        map_of(s).contains_key(s[i].symbol@),
        map_of(s)[s[i].symbol@] == s[i]@,
    decreases s.len(),
{
    if i == s.len() - 1 {
    } else {
        assert(unique_symbols(s.drop_last())) by {
            assert(forall|a: int, b: int| 0 <= a < b < s.drop_last().len()
                ==> (#[trigger] s.drop_last()[a].symbol@) != (#[trigger] s.drop_last()[b].symbol@));
        }
        assert(s.drop_last()[i] == s[i]);
        lemma_map_of_lookup(s.drop_last(), i);
        assert(s[i].symbol@ != s.last().symbol@);
    }
}

proof fn lemma_map_of_update(s: Seq<GenericStockDataDTO>, i: int, e: GenericStockDataDTO)
    requires
        unique_symbols(s),
        0 <= i < s.len(),
        e.symbol@ == s[i].symbol@,
    ensures
        map_of(s.update(i, e)) == map_of(s).insert(e.symbol@, e@),
    decreases s.len(),
{
    let u = s.update(i, e);
    if i == s.len() - 1 {
        assert(u.drop_last() =~= s.drop_last());
        assert(u.last() == e);
        assert(map_of(u) == map_of(s.drop_last()).insert(e.symbol@, e@));
        assert(map_of(s.drop_last()).insert(e.symbol@, e@)
            =~= map_of(s.drop_last()).insert(s.last().symbol@, s.last()@).insert(e.symbol@, e@));
    } else {
        assert(unique_symbols(s.drop_last())) by {
            assert(forall|a: int, b: int| 0 <= a < b < s.drop_last().len()
                ==> (#[trigger] s.drop_last()[a].symbol@) != (#[trigger] s.drop_last()[b].symbol@));
        }
        assert(s.drop_last()[i] == s[i]);
        lemma_map_of_update(s.drop_last(), i, e);
        assert(u.drop_last() =~= s.drop_last().update(i, e));
        assert(u.last() == s.last());
        assert(map_of(u) == map_of(s.drop_last()).insert(e.symbol@, e@).insert(s.last().symbol@, s.last()@));
        assert(e.symbol@ != s.last().symbol@);
        assert(map_of(s.drop_last()).insert(e.symbol@, e@).insert(s.last().symbol@, s.last()@)
            =~= map_of(s).insert(e.symbol@, e@));
    }
}

/// In-memory store: the verified implementation of the capability, complete
/// and deterministic. Serves as the local store in tests and in-process use.
pub struct MemoryStockRepository {
    records: Vec<GenericStockDataDTO>,
    fetches: Ghost<nat>,
}

impl MemoryStockRepository {
    #[verifier::type_invariant]
    spec fn inv(&self) -> bool {
        &&& unique_symbols(self.records@)
        &&& forall|i: int| 0 <= i < self.records@.len() ==> (#[trigger] self.records@[i]).wf()
    }

    /// An empty store.
    pub fn new() -> (r: Self)
        ensures
            r.calls() == 0,
            r.stored() == Map::<Seq<char>, StockRecordView>::empty(),
            r.complete(),
    {
        MemoryStockRepository { records: Vec::new(), fetches: Ghost(0) }
    }
}

impl StockRepository for MemoryStockRepository {
    closed spec fn calls(&self) -> nat {
        self.fetches@
    }

    closed spec fn stored(&self) -> Map<Seq<char>, StockRecordView> {
        map_of(self.records@)
    }

    closed spec fn complete(&self) -> bool {
        true
    }

    fn get_stock_dto(&mut self, symbol: &str) -> (r: Result<Option<GenericStockDataDTO>, SourceError>)
        ensures
            r is Ok,
    {
        proof {
            use_type_invariant(&*self);
        }
        self.fetches = Ghost(self.fetches@ + 1);
        let n = self.records.len();
        let mut i: usize = 0;
        while i < n
            invariant
                0 <= i <= n,
                n == self.records@.len(),
                self.records@ == old(self).records@,
                self.fetches@ == old(self).fetches@ + 1,
                unique_symbols(self.records@),
                forall|k: int| 0 <= k < self.records@.len() ==> (#[trigger] self.records@[k]).wf(),
                forall|k: int| 0 <= k < i ==> (#[trigger] self.records@[k].symbol@) != symbol@,
            decreases n - i,
        {
            if str_eq(symbol, self.records[i].symbol.as_str()) {
                let rec = self.records[i].clone();
                proof {
                    lemma_map_of_lookup(self.records@, i as int);
                }
                return Ok(Some(rec));
            }
            i += 1;
        }
        proof {
            lemma_map_of_contains(self.records@, symbol@);
        }
        Ok(None)
    }

    fn save_stock_dto(&mut self, dto: &GenericStockDataDTO) -> (r: Result<(), PersistenceError>)
        ensures
            r is Ok,
            final(self).stored() == old(self).stored().insert(dto.symbol@, dto@),
    {
        proof {
            use_type_invariant(&*self);
        }
        let ghost old_records = self.records@;
        let mut recs: Vec<GenericStockDataDTO> = Vec::new();
        core::mem::swap(&mut recs, &mut self.records);
        let n = recs.len();
        let mut i: usize = 0;
        while i < n
            invariant
                0 <= i <= n,
                n == recs@.len(),
                recs@ == old_records,
                old_records == old(self).records@,
                self.records@ == Seq::<GenericStockDataDTO>::empty(),
                self.fetches@ == old(self).fetches@,
                unique_symbols(recs@),
                forall|k: int| 0 <= k < recs@.len() ==> (#[trigger] recs@[k]).wf(),
                dto.wf(),
                forall|k: int| 0 <= k < i ==> (#[trigger] recs@[k].symbol@) != dto.symbol@,
            decreases n - i,
        {
            if str_eq(dto.symbol.as_str(), recs[i].symbol.as_str()) {
                let c = dto.clone();
                proof {
                    lemma_map_of_update(recs@, i as int, c);
                    let upd = recs@.update(i as int, c);
                    assert(c.symbol@ == recs@[i as int].symbol@);
                    assert forall|a: int, b: int| 0 <= a < b < upd.len()
                        implies (#[trigger] upd[a].symbol@) != (#[trigger] upd[b].symbol@) by {
                        if a != i {
                            assert(upd[a] == recs@[a]);
                        }
                        if b != i {
                            assert(upd[b] == recs@[b]);
                        }
                    }
                    assert forall|k: int| 0 <= k < upd.len() implies (#[trigger] upd[k]).wf() by {
                        if k != i {
                            assert(upd[k] == recs@[k]);
                        }
                    }
                }
                recs.set(i, c);
                self.records = recs;
                return Ok(());
            }
            i += 1;
        }
        let c = dto.clone();
        proof {
            lemma_map_of_contains(recs@, dto.symbol@);
            assert(recs@.push(c).drop_last() =~= recs@);
            assert forall|a: int, b: int| 0 <= a < b < recs@.push(c).len()
                implies (#[trigger] recs@.push(c)[a].symbol@) != (#[trigger] recs@.push(c)[b].symbol@) by {
                if b == recs@.len() {
                    assert(recs@.push(c)[a] == recs@[a]);
                } else {
                    assert(recs@.push(c)[a] == recs@[a]);
                    assert(recs@.push(c)[b] == recs@[b]);
                }
            }
        }
        recs.push(c);
        self.records = recs;
        Ok(())
    }
}

} // verus!
