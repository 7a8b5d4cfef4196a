use vstd::prelude::*;
use crate::stock_insights::{StockInsights, StockInsightsView, opt_str};
use crate::stock_insights_builder::{StockInsightsBuilder, spec_insights, seg_views, segments_ok};
use crate::time_series::{StockPoint, StockSegment, StockSegmentView, TimeInterval, points_ok, sorted_by_timestamp};

verus! {

/// The canonical persisted record: a symbol, its provenance, and the
/// historical segments fetched for it, with the derived snapshot computed
/// eagerly at construction.
#[derive(Debug)]
pub struct GenericStockDataDTO {
    pub symbol: String,
    pub provider: Option<String>,
    pub last_update: Option<i64>,
    pub historical_segments: Vec<StockSegment>,
    pub insights: StockInsights,
}

/// The record as the contracts see it; the derived snapshot is left out
/// because well-formedness pins it to the segments.
pub ghost struct StockRecordView {
    pub symbol: Seq<char>,
    pub provider: Option<Seq<char>>,
    pub last_update: Option<i64>,
    pub segments: Seq<StockSegmentView>,
}

impl View for GenericStockDataDTO {
    type V = StockRecordView;

    open spec fn view(&self) -> StockRecordView {
        StockRecordView {
            symbol: self.symbol@,
            provider: opt_str(self.provider),
            last_update: self.last_update,
            segments: seg_views(self.historical_segments@),
        }
    }
}

/// Structural health of a record: every segment well-formed and the
/// concatenated points fit the analysis bounds.
pub open spec fn wf_record_view(v: StockRecordView) -> bool {
    &&& forall|i: int| 0 <= i < v.segments.len() ==> (#[trigger] v.segments[i]).wf()
    &&& segments_ok(v.segments)
}

/// A record counts as data only if some segment holds at least one point.
pub open spec fn record_non_empty(v: StockRecordView) -> bool {
    exists|i: int| 0 <= i < v.segments.len() && (#[trigger] v.segments[i]).data_points.len() > 0
}

impl GenericStockDataDTO {
    /// The derived snapshot carried by this record.
    pub open spec fn insights_view(&self) -> StockInsightsView {
        self.insights@
    }

    /// Well-formed: healthy segments, and the carried snapshot is exactly
    /// what the engine derives from them.
    pub open spec fn wf(&self) -> bool {
        &&& wf_record_view(self@)
        &&& self.insights_view() == spec_insights(self@.segments)
    }

    /// Builds a record and computes its snapshot.
    pub fn new(
        symbol: String,
        provider: Option<String>,
        last_update: Option<i64>,
        historical_segments: Vec<StockSegment>,
    ) -> (r: Self)
        requires
            forall|i: int| 0 <= i < historical_segments@.len() ==> (#[trigger] historical_segments@[i]).wf(),
            segments_ok(seg_views(historical_segments@)),
        ensures
            r.wf(),
            r@ == (StockRecordView {
                symbol: symbol@,
                provider: opt_str(provider),
                last_update: last_update,
                segments: seg_views(historical_segments@),
            }),
    {
        let insights = StockInsightsBuilder::build(&historical_segments);
        let r = GenericStockDataDTO { symbol, provider, last_update, historical_segments, insights };
        proof {
            assert forall|i: int| 0 <= i < r@.segments.len() implies (#[trigger] r@.segments[i]).wf() by {
                assert(r@.segments[i] == r.historical_segments@[i]@);
            }
        }
        r
    }

    /// The snapshot derived from this record's segments.
    pub fn insights(&self) -> (r: &StockInsights)
        requires
            self.wf(),
        ensures
            r@ == spec_insights(self@.segments),
    {
        &self.insights
    }

    /// Whether any segment holds at least one point.
    pub fn is_non_empty(&self) -> (b: bool)
        ensures
            b == record_non_empty(self@),
    {
        let mut i: usize = 0;
        while i < self.historical_segments.len()
            invariant
                0 <= i <= self.historical_segments@.len(),
                forall|k: int| 0 <= k < i ==> (#[trigger] seg_views(self.historical_segments@)[k]).data_points.len() == 0,
            decreases self.historical_segments@.len() - i,
        {
            if self.historical_segments[i].data_points.len() > 0 {
                proof {
                    assert(self@.segments[i as int].data_points.len() > 0);
                }
                return true;
            }
            proof {
                assert(seg_views(self.historical_segments@)[i as int].data_points.len() == 0);
            }
            i += 1;
        }
        false
    }
}

/// Assembles a record from one run of points, as a provider client hands
/// them over: the points become a single segment spanning their first and
/// last timestamps. Returns nothing when the run is empty, unsorted or out
/// of bounds.
pub fn record_from_points(
    symbol: String,
    provider: Option<String>,
    last_update: Option<i64>,
    interval: TimeInterval,
    points: Vec<StockPoint>,
) -> (r: Option<GenericStockDataDTO>)
    ensures
        (match r {
            Some(rec) => points@.len() > 0 && sorted_by_timestamp(points@) && points_ok(points@)
                && rec.wf()
                && record_non_empty(rec@)
                && rec@ == (StockRecordView {
                    symbol: symbol@,
                    provider: opt_str(provider),
                    last_update: last_update,
                    segments: seq![StockSegmentView {
                        start_date: points@[0].timestamp,
                        end_date: points@[points@.len() - 1].timestamp,
                        interval: interval,
                        data_points: points@,
                    }],
                }),
            None => !(points@.len() > 0 && sorted_by_timestamp(points@) && points_ok(points@)),
        }),
{
    if points.len() == 0 {
        return None;
    }
    if !crate::time_series::check_points(&points) {
        return None;
    }
    let start_date = points[0].timestamp;
    let end_date = points[points.len() - 1].timestamp;
    let ghost gpoints = points@;
    let segment = StockSegment { start_date, end_date, interval, data_points: points };
    proof {
        assert forall|i: int| 0 <= i < segment.data_points@.len()
            implies segment.start_date <= (#[trigger] segment.data_points@[i]).timestamp
                <= segment.end_date by {
            assert(segment.data_points@[0].timestamp <= segment.data_points@[i].timestamp);
            assert(segment.data_points@[i].timestamp
                <= segment.data_points@[segment.data_points@.len() - 1].timestamp);
        }
        assert(segment.wf());
    }
    let segments = vec![segment];
    proof {
        reveal_with_fuel(crate::stock_insights_builder::flatten_prefix, 3);
        assert(crate::stock_insights_builder::flatten_segments(seg_views(segments@)) =~= gpoints);
        assert(segments_ok(seg_views(segments@)));
        assert(forall|k: int| 0 <= k < segments@.len() ==> (#[trigger] segments@[k]).wf());
    }
    let rec = GenericStockDataDTO::new(symbol, provider, last_update, segments);
    proof {
        assert(rec@.segments =~= seq![StockSegmentView {
            start_date: gpoints[0].timestamp,
            end_date: gpoints[gpoints.len() - 1].timestamp,
            interval: interval,
            data_points: gpoints,
        }]);
        assert(rec@.segments[0].data_points.len() > 0);
    }
    Some(rec)
}

impl Clone for GenericStockDataDTO {
    fn clone(&self) -> (res: Self)
        ensures
            res@ == self@,
            res.insights_view() == self.insights_view(),
            self.wf() ==> res.wf(),
    {
        let mut segs: Vec<StockSegment> = Vec::new();
        let mut i: usize = 0;
        while i < self.historical_segments.len()
            invariant
                0 <= i <= self.historical_segments@.len(),
                segs@.len() == i,
                forall|k: int| 0 <= k < i ==> (#[trigger] segs@[k])@ == self.historical_segments@[k]@,
            decreases self.historical_segments@.len() - i,
        {
            segs.push(self.historical_segments[i].clone());
            i += 1;
        }
        let res = GenericStockDataDTO {
            symbol: self.symbol.clone(),
            provider: match &self.provider {
                Some(p) => Some(p.clone()),
                None => None,
            },
            last_update: self.last_update,
            historical_segments: segs,
            insights: self.insights.clone(),
        };
        proof {
            assert(seg_views(res.historical_segments@) =~= seg_views(self.historical_segments@));
            assert(res@ == self@);
        }
        res
    }
}

} // verus!
