use vstd::prelude::*;
use crate::generic_stock_data_dto::{GenericStockDataDTO, StockRecordView};
use crate::stock_repository::{StockRepository, SourceError, PersistenceError};
use crate::stock_insights_builder::{seg_views, segments_ok, flatten_segments};
use crate::time_series::{StockPoint, StockSegment, TimeInterval, PRICE_SCALE};
use crate::prediction_point::{MAX_NOW, DAY_SECONDS};

verus! {

/// Relies on rand's `random_range`: a value uniform in `[lo, hi)`. The
/// function panics on an empty range, which the bound below rules out;
/// nothing more can be promised of a random draw.
#[verifier::external_body]
fn random_in_range(lo: i64, hi: i64) -> (r: i64)
    requires
        lo < hi,
    ensures
        lo <= r < hi,
{
    rand::random_range(lo..hi)
}

/// One candle of the simulated walk: the high-low range envelopes the open
/// and the close, and the volume lies in the simulated band.
pub open spec fn plausible_candle(p: StockPoint) -> bool {
    &&& p.low <= p.open <= p.high
    &&& p.low <= p.close <= p.high
    &&& 800 * PRICE_SCALE <= p.volume < 2000 * PRICE_SCALE
}

/// A provider that simulates thirty days of plausible candles with a random
/// walk. It is an incomplete source (its answers depend on the draws), yet
/// everything independent of the draws is promised: it always answers, with
/// the symbol echoed, one thirty-point daily segment at consecutive daily
/// timestamps, and every candle plausible.
pub struct FakeStockRepository {
    fetches: Ghost<nat>,
}

impl FakeStockRepository {
    pub fn new() -> (r: Self)
        ensures
            r.calls() == 0,
            !r.complete(),
    {
        FakeStockRepository { fetches: Ghost(0) }
    }
}

impl StockRepository for FakeStockRepository {
    closed spec fn calls(&self) -> nat {
        self.fetches@
    }

    closed spec fn stored(&self) -> Map<Seq<char>, StockRecordView> {
        Map::empty()
    }

    closed spec fn complete(&self) -> bool {
        false
    }

    fn get_stock_dto(&mut self, symbol: &str) -> (r: Result<Option<GenericStockDataDTO>, SourceError>)
        ensures
            (match r {
                Ok(Some(rec)) => {
                    &&& rec@.symbol == symbol@
                    &&& rec@.provider == Some("FakeData"@)
                    &&& rec@.segments.len() == 1
                    &&& rec@.segments[0].interval == TimeInterval::Day
                    &&& rec@.segments[0].data_points.len() == 30
                    &&& rec@.segments[0].start_date == rec@.segments[0].data_points[0].timestamp
                    &&& rec@.segments[0].end_date == rec@.segments[0].data_points[29].timestamp
                    &&& forall|k: int| 0 < k < 30
                        ==> (#[trigger] rec@.segments[0].data_points[k]).timestamp
                            == rec@.segments[0].data_points[k - 1].timestamp + DAY_SECONDS
                    &&& forall|k: int| 0 <= k < 30
                        ==> plausible_candle(#[trigger] rec@.segments[0].data_points[k])
                },
                _ => false,
            }),
    {
        self.fetches = Ghost(self.fetches@ + 1);
        let raw_now = crate::clock::now_timestamp();
        let now: i64 = if raw_now < 2_592_000 {
            2_592_000
        } else if raw_now > MAX_NOW {
            MAX_NOW
        } else {
            raw_now
        };

        let mut points: Vec<StockPoint> = Vec::new();
        let mut last_close: i64 = 100 * PRICE_SCALE + random_in_range(-10 * PRICE_SCALE, 10 * PRICE_SCALE);
        let mut i: usize = 0;
        while i < 30
            invariant
                0 <= i <= 30,
                2_592_000 <= now <= MAX_NOW,
                -2_200_000 + -(i as int) * 30_000 <= last_close as int <= 2_200_000 + (i as int) * 30_000,
                points@.len() == i,
                forall|k: int| 0 <= k < i ==> (#[trigger] points@[k]).timestamp == now - (30 - k) * DAY_SECONDS,
                forall|k: int| 0 <= k < i ==> crate::time_series::point_bounded(#[trigger] points@[k]),
                forall|k: int| 0 <= k < i ==> plausible_candle(#[trigger] points@[k]),
            decreases 30 - i,
        {
            let ts = now - ((30 - i) as i64) * DAY_SECONDS;
            let change = random_in_range(-2 * PRICE_SCALE, 2 * PRICE_SCALE);
            let open = last_close + random_in_range(-PRICE_SCALE, PRICE_SCALE);
            let close = open + change;
            let spread_high = random_in_range(0, PRICE_SCALE + PRICE_SCALE / 2);
            let spread_low = random_in_range(0, PRICE_SCALE + PRICE_SCALE / 2);
            let high = if open > close { open } else { close } + spread_high;
            let low = if open < close { open } else { close } - spread_low;
            let volume = random_in_range(800 * PRICE_SCALE, 2000 * PRICE_SCALE);
            points.push(StockPoint { timestamp: ts, open, high, low, close, volume });
            last_close = close;
            i += 1;
        }

        let start_date = points[0].timestamp;
        let end_date = points[points.len() - 1].timestamp;
        let segment = StockSegment { start_date, end_date, interval: TimeInterval::Day, data_points: points };
        proof {
            assert(crate::time_series::sorted_by_timestamp(segment.data_points@)) by {
                assert(forall|a: int, b: int| 0 <= a <= b < segment.data_points@.len()
                    ==> (#[trigger] segment.data_points@[a]).timestamp
                        <= (#[trigger] segment.data_points@[b]).timestamp);
            }
            assert(segment.wf());
        }
        let segments = vec![segment];
        proof {
            reveal_with_fuel(crate::stock_insights_builder::flatten_prefix, 3);
            assert(seg_views(segments@).len() == 1);
            assert(flatten_segments(seg_views(segments@)) =~= segments@[0].data_points@);
            assert(segments_ok(seg_views(segments@)));
            assert(forall|k: int| 0 <= k < segments@.len() ==> (#[trigger] segments@[k]).wf());
        }
        let dto = GenericStockDataDTO::new(
            symbol.to_owned(),
            Some("FakeData".to_owned()),
            Some(now),
            segments,
        );
        proof {
            assert(dto@.segments.len() == 1);
            assert(dto@.segments[0].data_points.len() == 30);
        }
        Ok(Some(dto))
    }

    fn save_stock_dto(&mut self, _dto: &GenericStockDataDTO) -> (r: Result<(), PersistenceError>)
    {
        Ok(())
    }
}

} // verus!
