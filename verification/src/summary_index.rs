use vstd::prelude::*;
use crate::stock_summary::{StockSummary, StockSummaryView};
use crate::utils::{can_be_symbol, spec_can_be_symbol, contains_ci, chars_contain_ci, str_chars};

verus! {

/// Most results one search returns.
pub const SEARCH_CAP: usize = 10;

/// The views of a run of summaries.
pub open spec fn summary_views(s: Seq<StockSummary>) -> Seq<StockSummaryView> {
    s.map_values(|x: StockSummary| x@)
}

/// The search heuristic: a ticker-shaped query is matched against the
/// symbol field, any other against the display name, case-insensitively and
/// as a substring.
pub open spec fn summary_matches(v: StockSummaryView, q: Seq<char>) -> bool {
    if spec_can_be_symbol(q) {
        contains_ci(v.symbol, q)
    } else {
        contains_ci(v.name, q)
    }
}

/// The first `cap` of a run.
pub open spec fn take_cap<A>(s: Seq<A>, cap: int) -> Seq<A> {
    s.take(if s.len() < cap { s.len() as int } else { cap })
}

/// The match predicate for one query.
pub open spec fn matches_pred(q: Seq<char>) -> spec_fn(StockSummaryView) -> bool {
    |v: StockSummaryView| summary_matches(v, q)
}

/// What a search returns: the first matching summaries, in index order,
/// capped.
pub open spec fn spec_search(items: Seq<StockSummaryView>, q: Seq<char>) -> Seq<StockSummaryView> {
    take_cap(items.filter(matches_pred(q)), SEARCH_CAP as int)
}

/// In-memory summary index: the verified counterpart of the persisted
/// summary collection, searched by the ticker-shape heuristic.
pub struct SummaryIndex {
    pub items: Vec<StockSummary>,
}

impl SummaryIndex {
    /// An empty index.
    pub fn new() -> (r: Self)
        ensures
            r.items@.len() == 0,
    {
        SummaryIndex { items: Vec::new() }
    }

    /// Appends one summary to the index.
    pub fn add_stock(&mut self, stock: StockSummary)
        ensures
            final(self).items@ == old(self).items@.push(stock),
    {
        self.items.push(stock);
    }

    /// Searches the index: ticker-shaped queries by symbol, others by
    /// display name, case-insensitive substring, at most `SEARCH_CAP`
    /// results in index order.
    pub fn search_by_name(&self, query: &str) -> (r: Vec<StockSummary>)
        ensures
            summary_views(r@) == spec_search(summary_views(self.items@), query@),
    {
        let ghost all = summary_views(self.items@);
        let ghost pred = matches_pred(query@);
        let by_symbol = can_be_symbol(query);
        let q_chars = str_chars(query);
        let mut r: Vec<StockSummary> = Vec::new();
        let mut i: usize = 0;
        proof {
            reveal(Seq::filter);
            assert(all.take(0).filter(pred) =~= Seq::<StockSummaryView>::empty());
        }
        while i < self.items.len()
            invariant
                0 <= i <= self.items@.len(),
                all == summary_views(self.items@),
                pred == matches_pred(query@),
                by_symbol == spec_can_be_symbol(query@),
                q_chars@ == query@,
                r@.len() <= SEARCH_CAP,
                r@.len() == (if all.take(i as int).filter(pred).len() < SEARCH_CAP as int {
                    all.take(i as int).filter(pred).len() as int
                } else {
                    SEARCH_CAP as int
                }),
                summary_views(r@) == take_cap(all.take(i as int).filter(pred), SEARCH_CAP as int),
            decreases self.items@.len() - i,
        {
            let item = &self.items[i];
            proof {
                reveal(Seq::filter);
                assert(all.take(i as int + 1).drop_last() =~= all.take(i as int));
                assert(all.take(i as int + 1).last() == all[i as int]);
                assert(all[i as int] == self.items@[i as int]@);
            }
            let field_chars = if by_symbol {
                str_chars(item.symbol.as_str())
            } else {
                str_chars(item.name.as_str())
            };
            let is_match = chars_contain_ci(&field_chars, &q_chars);
            proof {
                assert(is_match == pred(all[i as int]));
            }
            if is_match && r.len() < SEARCH_CAP {
                r.push(item.clone());
                proof {
                    reveal(Seq::filter);
                    let f0 = all.take(i as int).filter(pred);
                    let f1 = all.take(i as int + 1).filter(pred);
                    assert(f1 == f0.push(all[i as int]));
                    assert(take_cap(f1, SEARCH_CAP as int) =~= take_cap(f0, SEARCH_CAP as int).push(all[i as int]));
                    assert(summary_views(r@) =~= take_cap(f1, SEARCH_CAP as int));
                }
            } else {
                proof {
                    reveal(Seq::filter);
                    let f0 = all.take(i as int).filter(pred);
                    let f1 = all.take(i as int + 1).filter(pred);
                    if is_match {
                        assert(f1 == f0.push(all[i as int]));
                        assert(f0.len() >= SEARCH_CAP as int);
                        assert(take_cap(f1, SEARCH_CAP as int) =~= take_cap(f0, SEARCH_CAP as int));
                    } else {
                        assert(f1 == f0);
                    }
                }
            }
            i += 1;
        }
        proof {
            assert(all.take(all.len() as int) =~= all);
        }
        r
    }
}

} // verus!
