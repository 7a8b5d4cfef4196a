use vstd::prelude::*;

verus! {

/// Fixed-point scale: a stored value of `PRICE_SCALE` stands for 1.0.
pub const PRICE_SCALE: i64 = 10_000;

/// Largest magnitude a scaled price (or a volume) may take. The indicator
/// arithmetic squares centred prices and sums them over a window inside
/// `i128`, which this bound keeps free of overflow.
pub const PRICE_LIMIT: i64 = 1_000_000_000_000_000;

/// Largest number of points a single analysis accepts; keeps every windowed
/// sum, scaled by `PRICE_SCALE`, inside `i128`.
pub const MAX_POINTS: usize = 100_000;

/// Finest level of the model: one sampled interval of a price series.
#[derive(Clone, Copy, PartialEq, Eq, Structural, Debug)]
pub struct StockPoint {
    pub timestamp: i64,
    pub open: i64,
    pub high: i64,
    pub low: i64,
    pub close: i64,
    pub volume: i64,
}

/// Granularity tag of a segment.
#[derive(Clone, Copy, PartialEq, Eq, Structural, Debug)]
pub enum TimeInterval {
    Tick,
    Minute,
    Hour,
    Day,
    Week,
    Month,
}

/// A contiguous run of sampled points at one granularity.
#[derive(Debug)]
pub struct StockSegment {
    pub start_date: i64,
    pub end_date: i64,
    pub interval: TimeInterval,
    pub data_points: Vec<StockPoint>,
}

pub ghost struct StockSegmentView {
    pub start_date: i64,
    pub end_date: i64,
    pub interval: TimeInterval,
    pub data_points: Seq<StockPoint>,
}

impl View for StockSegment {
    type V = StockSegmentView;

    open spec fn view(&self) -> StockSegmentView {
        StockSegmentView {
            start_date: self.start_date,
            end_date: self.end_date,
            interval: self.interval,
            data_points: self.data_points@,
        }
    }
}

/// All price fields of `p` lie within `PRICE_LIMIT`, and the volume is a
/// bounded non-negative value.
pub open spec fn point_bounded(p: StockPoint) -> bool {
    &&& -(PRICE_LIMIT as int) <= p.open <= PRICE_LIMIT as int
    &&& -(PRICE_LIMIT as int) <= p.high <= PRICE_LIMIT as int
    &&& -(PRICE_LIMIT as int) <= p.low <= PRICE_LIMIT as int
    &&& -(PRICE_LIMIT as int) <= p.close <= PRICE_LIMIT as int
    &&& 0 <= p.volume <= PRICE_LIMIT as int
}

/// The sequence is short enough to analyse and every point is bounded.
pub open spec fn points_ok(s: Seq<StockPoint>) -> bool {
    &&& s.len() <= MAX_POINTS as int
    &&& forall|i: int| 0 <= i < s.len() ==> point_bounded(#[trigger] s[i])
}

/// Points appear in ascending timestamp order.
pub open spec fn sorted_by_timestamp(s: Seq<StockPoint>) -> bool {
    forall|i: int, j: int| 0 <= i <= j < s.len() ==> #[trigger] s[i].timestamp <= #[trigger] s[j].timestamp
}

impl StockSegmentView {
    /// Invariant of a segment: sorted points, all within `[start, end]`,
    /// bounded values.
    pub open spec fn wf(self) -> bool {
        &&& sorted_by_timestamp(self.data_points)
        &&& points_ok(self.data_points)
        &&& forall|i: int| 0 <= i < self.data_points.len()
                ==> self.start_date <= (#[trigger] self.data_points[i]).timestamp <= self.end_date
    }
}

impl StockSegment {
    pub open spec fn wf(&self) -> bool {
        self@.wf()
    }
}

impl Clone for StockSegment {
    fn clone(&self) -> (res: Self)
        ensures
            res@ == self@,
    {
        let mut pts: Vec<StockPoint> = Vec::new();
        let mut i: usize = 0;
        while i < self.data_points.len()
            invariant
                i <= self.data_points.len(),
                pts@ == self.data_points@.subrange(0, i as int),
            decreases self.data_points.len() - i,
        {
            pts.push(self.data_points[i]);
            i += 1;
            proof {
                assert(pts@ =~= self.data_points@.subrange(0, i as int));
            }
        }
        proof {
            assert(pts@ =~= self.data_points@);
        }
        StockSegment {
            start_date: self.start_date,
            end_date: self.end_date,
            interval: self.interval,
            data_points: pts,
        }
    }
}

/// Zips parallel arrays of candle data into points, one per timestamp.
pub fn build_stock_points(
    timestamps: &Vec<i64>,
    opens: &Vec<i64>,
    highs: &Vec<i64>,
    lows: &Vec<i64>,
    closes: &Vec<i64>,
    volumes: &Vec<i64>,
) -> (r: Vec<StockPoint>)
    requires
        opens@.len() == timestamps@.len(),
        highs@.len() == timestamps@.len(),
        lows@.len() == timestamps@.len(),
        closes@.len() == timestamps@.len(),
        volumes@.len() == timestamps@.len(),
    ensures
        r@.len() == timestamps@.len(),
        forall|i: int| 0 <= i < r@.len() ==> #[trigger] r@[i] == (StockPoint {
            timestamp: timestamps@[i],
            open: opens@[i],
            high: highs@[i],
            low: lows@[i],
            close: closes@[i],
            volume: volumes@[i],
        }),
{
    let mut r: Vec<StockPoint> = Vec::new();
    let mut i: usize = 0;
    while i < timestamps.len()
        invariant
            i <= timestamps@.len(),
            opens@.len() == timestamps@.len(),
            highs@.len() == timestamps@.len(),
            lows@.len() == timestamps@.len(),
            closes@.len() == timestamps@.len(),
            volumes@.len() == timestamps@.len(),
            r@.len() == i,
            forall|k: int| 0 <= k < i ==> #[trigger] r@[k] == (StockPoint {
                timestamp: timestamps@[k],
                open: opens@[k],
                high: highs@[k],
                low: lows@[k],
                close: closes@[k],
                volume: volumes@[k],
            }),
        decreases timestamps@.len() - i,
    {
        r.push(StockPoint {
            timestamp: timestamps[i],
            open: opens[i],
            high: highs[i],
            low: lows[i],
            close: closes[i],
            volume: volumes[i],
        });
        i += 1;
    }
    r
}

/// Decides whether a point vector can enter a well-formed segment: sorted,
/// bounded, and not longer than `MAX_POINTS`.
pub fn check_points(points: &Vec<StockPoint>) -> (b: bool)
    ensures
        b == (sorted_by_timestamp(points@) && points_ok(points@)),
{
    if points.len() > MAX_POINTS {
        return false;
    }
    let mut i: usize = 0;
    while i < points.len()
        invariant
            i <= points@.len(),
            points@.len() <= MAX_POINTS as int,
            forall|k: int| 0 <= k < i ==> point_bounded(#[trigger] points@[k]),
            forall|k: int| 0 < k < i ==> points@[k - 1].timestamp <= #[trigger] points@[k].timestamp,
        decreases points@.len() - i,
    {
        let p = points[i];
        if p.open < -PRICE_LIMIT || p.open > PRICE_LIMIT
            || p.high < -PRICE_LIMIT || p.high > PRICE_LIMIT
            || p.low < -PRICE_LIMIT || p.low > PRICE_LIMIT
            || p.close < -PRICE_LIMIT || p.close > PRICE_LIMIT
            || p.volume < 0 || p.volume > PRICE_LIMIT
        {
            return false;
        }
        if i > 0 && points[i - 1].timestamp > p.timestamp {
            return false;
        }
        i += 1;
    }
    proof {
        lemma_adjacent_sorted(points@);
    }
    true
}

/// Adjacent order implies full order.
proof fn lemma_adjacent_sorted(s: Seq<StockPoint>)
    requires
        forall|k: int| 0 < k < s.len() ==> s[k - 1].timestamp <= #[trigger] s[k].timestamp,
    ensures
        sorted_by_timestamp(s),
{
    assert forall|i: int, j: int| 0 <= i <= j < s.len() implies #[trigger] s[i].timestamp <= #[trigger] s[j].timestamp by {
        lemma_order_reaches(s, i, j);
    }
}

proof fn lemma_order_reaches(s: Seq<StockPoint>, i: int, j: int)
    requires
        forall|k: int| 0 < k < s.len() ==> s[k - 1].timestamp <= #[trigger] s[k].timestamp,
        0 <= i <= j < s.len(),
    ensures
        s[i].timestamp <= s[j].timestamp,
    decreases j - i,
{
    if i < j {
        lemma_order_reaches(s, i, j - 1);
        assert(s[j - 1].timestamp <= s[j].timestamp);
    }
}

} // verus!
