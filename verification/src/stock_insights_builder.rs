use vstd::prelude::*;
use crate::indicators;
use crate::num::div_tz;
use crate::stock_insights::{StockInsights, StockInsightsView, empty_insights};
use crate::time_series::{StockPoint, StockSegment, StockSegmentView, points_ok, point_bounded,
    sorted_by_timestamp, PRICE_SCALE};

verus! {

/// Concatenation of the points of the first `n` segments, in segment order.
pub open spec fn flatten_prefix(segs: Seq<StockSegmentView>, n: int) -> Seq<StockPoint>
    recommends
        0 <= n <= segs.len(),
    decreases n,
{
    if n <= 0 {
        Seq::empty()
    } else {
        flatten_prefix(segs, n - 1) + segs[n - 1].data_points
    }
}

pub open spec fn flatten_segments(segs: Seq<StockSegmentView>) -> Seq<StockPoint> {
    flatten_prefix(segs, segs.len() as int)
}

/// The views of a vector of segments.
pub open spec fn seg_views(s: Seq<StockSegment>) -> Seq<StockSegmentView> {
    s.map_values(|seg: StockSegment| seg@)
}

/// The concatenated points of the segments are bounded and not too many.
pub open spec fn segments_ok(segs: Seq<StockSegmentView>) -> bool {
    points_ok(flatten_segments(segs))
}

/// Stable insertion of `p` into a run sorted by timestamp: `p` lands after
/// every point whose timestamp is not larger.
pub open spec fn insert_by_ts(s: Seq<StockPoint>, p: StockPoint) -> Seq<StockPoint>
    decreases s.len(),
{
    if s.len() == 0 {
        seq![p]
    } else if s.last().timestamp <= p.timestamp {
        s.push(p)
    } else {
        insert_by_ts(s.drop_last(), p).push(s.last())
    }
}

/// Stable sort of the points by ascending timestamp.
pub open spec fn sort_by_ts(s: Seq<StockPoint>) -> Seq<StockPoint>
    decreases s.len(),
{
    if s.len() == 0 {
        Seq::empty()
    } else {
        insert_by_ts(sort_by_ts(s.drop_last()), s.last())
    }
}

proof fn lemma_insert_by_ts_len(s: Seq<StockPoint>, p: StockPoint)
    ensures
        insert_by_ts(s, p).len() == s.len() + 1,
    decreases s.len(),
{
    if s.len() > 0 && !(s.last().timestamp <= p.timestamp) {
        lemma_insert_by_ts_len(s.drop_last(), p);
    }
}

/// Insertion keeps boundedness of every point.
proof fn lemma_insert_by_ts_bounded(s: Seq<StockPoint>, p: StockPoint)
    requires
        forall|i: int| 0 <= i < s.len() ==> point_bounded(#[trigger] s[i]),
        point_bounded(p),
    ensures
        forall|i: int| 0 <= i < insert_by_ts(s, p).len() ==> point_bounded(#[trigger] insert_by_ts(s, p)[i]),
    decreases s.len(),
{
    let r = insert_by_ts(s, p);
    if s.len() == 0 {
        assert forall|i: int| 0 <= i < r.len() implies point_bounded(#[trigger] r[i]) by {
            assert(r[0] == p);
        }
    } else if s.last().timestamp <= p.timestamp {
        assert forall|i: int| 0 <= i < r.len() implies point_bounded(#[trigger] r[i]) by {
            if i < s.len() {
                assert(r[i] == s[i]);
            } else {
                assert(r[i] == p);
            }
        }
    } else {
        assert(forall|i: int| 0 <= i < s.drop_last().len() ==> point_bounded(#[trigger] s.drop_last()[i]));
        lemma_insert_by_ts_bounded(s.drop_last(), p);
        let t = insert_by_ts(s.drop_last(), p);
        assert forall|i: int| 0 <= i < r.len() implies point_bounded(#[trigger] r[i]) by {
            if i < t.len() {
                assert(r[i] == t[i]);
            } else {
                assert(r[i] == s.last());
                assert(point_bounded(s[s.len() - 1]));
            }
        }
    }
}

/// Insertion keeps sortedness.
proof fn lemma_insert_by_ts_sorted(s: Seq<StockPoint>, p: StockPoint)
    requires
        sorted_by_timestamp(s),
    ensures
        sorted_by_timestamp(insert_by_ts(s, p)),
    decreases s.len(),
{
    if s.len() == 0 {
    } else if s.last().timestamp <= p.timestamp {
        let r = s.push(p);
        assert forall|i: int, j: int| 0 <= i <= j < r.len() implies #[trigger] r[i].timestamp <= #[trigger] r[j].timestamp by {
            if j < s.len() {
            } else {
                if i < s.len() {
                    assert(s[i].timestamp <= s.last().timestamp);
                }
            }
        }
    } else {
        assert(sorted_by_timestamp(s.drop_last())) by {
            assert(forall|i: int, j: int| 0 <= i <= j < s.drop_last().len()
                ==> #[trigger] s.drop_last()[i].timestamp <= #[trigger] s.drop_last()[j].timestamp);
        }
        lemma_insert_by_ts_sorted(s.drop_last(), p);
        let t = insert_by_ts(s.drop_last(), p);
        let r = t.push(s.last());
        assert(forall|i: int| 0 <= i < s.drop_last().len()
            ==> (#[trigger] s.drop_last()[i].timestamp) <= s.last().timestamp);
        lemma_insert_by_ts_ub(s.drop_last(), p, s.last().timestamp);
        assert forall|i: int, j: int| 0 <= i <= j < r.len() implies #[trigger] r[i].timestamp <= #[trigger] r[j].timestamp by {
            if j < t.len() {
            } else {
                if i < t.len() {
                    assert(r[j] == s.last());
                    assert(r[i] == t[i]);
                    assert(t[i].timestamp <= s.last().timestamp);
                }
            }
        }
    }
}

/// Insertion never introduces a timestamp above a common upper bound.
proof fn lemma_insert_by_ts_ub(s: Seq<StockPoint>, p: StockPoint, b: i64)
    requires
        forall|i: int| 0 <= i < s.len() ==> (#[trigger] s[i].timestamp) <= b,
        p.timestamp <= b,
    ensures
        forall|i: int| 0 <= i < insert_by_ts(s, p).len() ==> (#[trigger] insert_by_ts(s, p)[i].timestamp) <= b,
    decreases s.len(),
{
    let r = insert_by_ts(s, p);
    if s.len() == 0 {
        assert forall|i: int| 0 <= i < r.len() implies (#[trigger] r[i].timestamp) <= b by {
            assert(r[0] == p);
        }
    } else if s.last().timestamp <= p.timestamp {
        assert forall|i: int| 0 <= i < r.len() implies (#[trigger] r[i].timestamp) <= b by {
            if i < s.len() {
                assert(r[i] == s[i]);
            } else {
                assert(r[i] == p);
            }
        }
    } else {
        assert(forall|i: int| 0 <= i < s.drop_last().len() ==> (#[trigger] s.drop_last()[i].timestamp) <= b);
        lemma_insert_by_ts_ub(s.drop_last(), p, b);
        let t = insert_by_ts(s.drop_last(), p);
        assert forall|i: int| 0 <= i < r.len() implies (#[trigger] r[i].timestamp) <= b by {
            if i < t.len() {
                assert(r[i] == t[i]);
            } else {
                assert(r[i] == s.last());
                assert(s[s.len() - 1].timestamp <= b);
            }
        }
    }
}

/// Inserting at the first position from the end whose predecessor is not
/// later than `p` realises `insert_by_ts`.
proof fn lemma_insert_at(s: Seq<StockPoint>, p: StockPoint, j: int)
    requires
        sorted_by_timestamp(s),
        0 <= j <= s.len(),
        forall|i: int| j <= i < s.len() ==> (#[trigger] s[i].timestamp) > p.timestamp,
        j > 0 ==> s[j - 1].timestamp <= p.timestamp,
    ensures
        insert_by_ts(s, p) == s.subrange(0, j).push(p) + s.subrange(j, s.len() as int),
    decreases s.len(),
{
    if s.len() == 0 {
        assert(insert_by_ts(s, p) =~= s.subrange(0, j).push(p) + s.subrange(j, s.len() as int));
    } else if j == s.len() {
        assert(s.last().timestamp <= p.timestamp);
        assert(insert_by_ts(s, p) == s.push(p));
        assert(s.subrange(0, j) =~= s);
        assert(s.push(p) =~= s.subrange(0, j).push(p) + s.subrange(j, s.len() as int));
    } else {
        assert(s.last().timestamp > p.timestamp);
        assert(sorted_by_timestamp(s.drop_last())) by {
            assert(forall|i: int, k: int| 0 <= i <= k < s.drop_last().len()
                ==> #[trigger] s.drop_last()[i].timestamp <= #[trigger] s.drop_last()[k].timestamp);
        }
        assert(forall|i: int| j <= i < s.drop_last().len() ==> (#[trigger] s.drop_last()[i].timestamp) > p.timestamp);
        lemma_insert_at(s.drop_last(), p, j);
        assert(insert_by_ts(s, p) == insert_by_ts(s.drop_last(), p).push(s.last()));
        assert(insert_by_ts(s.drop_last(), p)
            == s.drop_last().subrange(0, j).push(p) + s.drop_last().subrange(j, s.len() - 1));
        assert(s.drop_last().subrange(0, j) =~= s.subrange(0, j));
        assert((s.drop_last().subrange(0, j).push(p) + s.drop_last().subrange(j, s.len() - 1)).push(s.last())
            =~= s.subrange(0, j).push(p) + s.subrange(j, s.len() as int));
    }
}

/// Inserts `p` into a timestamp-sorted vector, stably.
fn insert_sorted(res: &mut Vec<StockPoint>, p: StockPoint)
    requires
        sorted_by_timestamp(old(res)@),
    ensures
        final(res)@ == insert_by_ts(old(res)@, p),
{
    let mut j: usize = res.len();
    while j > 0 && res[j - 1].timestamp > p.timestamp
        invariant
            0 <= j <= res@.len(),
            forall|i: int| j <= i < res@.len() ==> (#[trigger] res@[i].timestamp) > p.timestamp,
            sorted_by_timestamp(res@),
        decreases j,
    {
        j -= 1;
    }
    proof {
        lemma_insert_at(res@, p, j as int);
    }
    res.insert(j, p);
    proof {
        assert(res@ =~= old(res)@.subrange(0, j as int).push(p) + old(res)@.subrange(j as int, old(res)@.len() as int));
    }
}

/// Stable sort of points by ascending timestamp.
pub fn sort_points(v: &Vec<StockPoint>) -> (r: Vec<StockPoint>)
    ensures
        r@ == sort_by_ts(v@),
        sorted_by_timestamp(r@),
{
    let mut r: Vec<StockPoint> = Vec::new();
    let mut i: usize = 0;
    while i < v.len()
        invariant
            0 <= i <= v@.len(),
            r@ == sort_by_ts(v@.subrange(0, i as int)),
            sorted_by_timestamp(r@),
        decreases v@.len() - i,
    {
        proof {
            lemma_insert_by_ts_sorted(r@, v@[i as int]);
            assert(v@.subrange(0, i as int + 1).drop_last() =~= v@.subrange(0, i as int));
            assert(v@.subrange(0, i as int + 1).last() == v@[i as int]);
        }
        insert_sorted(&mut r, v[i]);
        i += 1;
    }
    proof {
        assert(v@.subrange(0, v@.len() as int) =~= v@);
    }
    r
}

/// Sorting keeps length and boundedness, so a sorted run of acceptable
/// points is again acceptable.
pub proof fn lemma_sort_points_ok(s: Seq<StockPoint>)
    requires
        points_ok(s),
    ensures
        points_ok(sort_by_ts(s)),
        sort_by_ts(s).len() == s.len(),
    decreases s.len(),
{
    if s.len() > 0 {
        assert(forall|i: int| 0 <= i < s.drop_last().len() ==> point_bounded(#[trigger] s.drop_last()[i]));
        lemma_sort_points_ok(s.drop_last());
        lemma_insert_by_ts_len(sort_by_ts(s.drop_last()), s.last());
        assert(point_bounded(s[s.len() - 1]));
        lemma_insert_by_ts_bounded(sort_by_ts(s.drop_last()), s.last());
    }
}

/// What the engine derives from a record's segments: the battery of
/// indicators over the concatenated, timestamp-sorted points.
pub open spec fn spec_insights(segs: Seq<StockSegmentView>) -> StockInsightsView {
    let pts = sort_by_ts(flatten_segments(segs));
    if pts.len() == 0 {
        empty_insights()
    } else {
        StockInsightsView {
            last_price: Some(indicators::spec_last_close(pts)),
            day_change: Some(indicators::spec_day_change(pts)),
            day_change_percent: indicators::spec_day_change_percent(pts),
            sma_7: indicators::spec_sma(pts, 7),
            sma_30: indicators::spec_sma(pts, 30),
            ema_7: indicators::spec_ema(pts, 7),
            ema_30: indicators::spec_ema(pts, 30),
            bollinger_upper: indicators::spec_bollinger(pts, 20).0,
            bollinger_lower: indicators::spec_bollinger(pts, 20).1,
            rsi_14: indicators::spec_rsi(pts, 14),
            macd: indicators::spec_macd(pts),
            atr_14: indicators::spec_atr(pts, 14),
            max_drawdown_30d: indicators::spec_max_drawdown(pts, 30),
            trend: indicators::spec_trend(pts),
            cumulative_gain_30d: indicators::spec_cumulative_gain(pts, 30),
            volume_avg_30d: indicators::spec_volume_avg(pts, 30),
            volatility_30d: indicators::spec_volatility(pts, 30),
            price_vs_sector: Some(div_tz(indicators::spec_last_close(pts), 100)),
            alert_overbought: match indicators::spec_rsi(pts, 14) {
                Some(v) => Some(v > 70 * (PRICE_SCALE as int)),
                None => None,
            },
            alert_oversold: match indicators::spec_rsi(pts, 14) {
                Some(v) => Some(v < 30 * (PRICE_SCALE as int)),
                None => None,
            },
        }
    }
}

/// Computes the indicator battery from a record's segments. Stateless; the
/// result is a pure function of the concatenated, sorted point sequence.
pub struct StockInsightsBuilder;

impl StockInsightsBuilder {
    pub fn build(historical_segments: &Vec<StockSegment>) -> (r: StockInsights)
        requires
            segments_ok(seg_views(historical_segments@)),
        ensures
            r@ == spec_insights(seg_views(historical_segments@)),
    {
        let ghost gsegs = seg_views(historical_segments@);
        let mut pts: Vec<StockPoint> = Vec::new();
        let mut i: usize = 0;
        while i < historical_segments.len()
            invariant
                0 <= i <= historical_segments@.len(),
                gsegs == seg_views(historical_segments@),
                pts@ == flatten_prefix(gsegs, i as int),
            decreases historical_segments@.len() - i,
        {
            let seg = &historical_segments[i];
            let mut k: usize = 0;
            while k < seg.data_points.len()
                invariant
                    0 <= k <= seg.data_points@.len(),
                    0 <= i < historical_segments@.len(),
                    seg@ == gsegs[i as int],
                    gsegs == seg_views(historical_segments@),
                    pts@ == flatten_prefix(gsegs, i as int) + seg.data_points@.subrange(0, k as int),
                decreases seg.data_points@.len() - k,
            {
                pts.push(seg.data_points[k]);
                k += 1;
                proof {
                    assert(pts@ =~= flatten_prefix(gsegs, i as int) + seg.data_points@.subrange(0, k as int));
                }
            }
            i += 1;
            proof {
                assert(gsegs[i - 1].data_points == seg.data_points@);
                assert(seg.data_points@.subrange(0, seg.data_points@.len() as int) =~= seg.data_points@);
                assert(pts@ =~= flatten_prefix(gsegs, i as int));
            }
        }
        proof {
            assert(pts@ == flatten_segments(gsegs));
        }

        let mut insights = StockInsights::new();
        if pts.len() == 0 {
            return insights;
        }

        proof {
            lemma_sort_points_ok(pts@);
        }
        let sorted = sort_points(&pts);

        insights.last_price = Some(indicators::last_close(&sorted));
        insights.day_change = Some(indicators::day_change(&sorted));
        insights.day_change_percent = indicators::day_change_percent(&sorted);

        insights.sma_7 = indicators::sma(&sorted, 7);
        insights.sma_30 = indicators::sma(&sorted, 30);
        insights.ema_7 = indicators::ema(&sorted, 7);
        insights.ema_30 = indicators::ema(&sorted, 30);

        let (upper, lower) = indicators::bollinger(&sorted, 20);
        insights.bollinger_upper = upper;
        insights.bollinger_lower = lower;

        insights.rsi_14 = indicators::rsi(&sorted, 14);
        insights.macd = indicators::macd(&sorted);
        insights.atr_14 = indicators::atr(&sorted, 14);
        insights.max_drawdown_30d = indicators::max_drawdown(&sorted, 30);
        insights.trend = indicators::trend(&sorted);
        insights.cumulative_gain_30d = indicators::cumulative_gain(&sorted, 30);
        insights.volume_avg_30d = indicators::volume_avg(&sorted, 30);
        insights.volatility_30d = indicators::volatility(&sorted, 30);

        let last = indicators::last_close(&sorted);
        insights.price_vs_sector = Some(crate::num::div_trunc_price(last));

        match insights.rsi_14 {
            Some(v) => {
                insights.alert_overbought = Some(v > 70 * PRICE_SCALE);
                insights.alert_oversold = Some(v < 30 * PRICE_SCALE);
            },
            None => {},
        }

        insights
    }
}

} // verus!
