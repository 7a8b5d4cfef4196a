use vstd::prelude::*;
use crate::time_series::{PRICE_LIMIT, MAX_POINTS};

verus! {

/// Latest moment the forecast clock accepts, far in the future; keeps every
/// forecast timestamp within `i64`.
pub const MAX_NOW: i64 = 4_000_000_000_000;

/// Seconds in one day: forecast points are spaced by this step.
pub const DAY_SECONDS: i64 = 86_400;

/// One forecast point: a timestamp, the point estimate, and its bounds.
/// Every strategy sets both bounds equal to the estimate.
#[derive(Clone, Copy, PartialEq, Eq, Structural, Debug)]
pub struct PredictionPoint {
    pub timestamp: i64,
    pub close: i64,
    pub upper: i64,
    pub lower: i64,
}

impl PredictionPoint {
    pub fn new(timestamp: i64, close: i64, upper: i64, lower: i64) -> (r: Self)
        ensures
            r == (PredictionPoint { timestamp, close, upper, lower }),
    {
        PredictionPoint { timestamp, close, upper, lower }
    }
}

/// A history the strategies accept: not too long, with bounded closes.
pub open spec fn history_ok(s: Seq<PredictionPoint>) -> bool {
    &&& s.len() <= MAX_POINTS as int
    &&& forall|i: int| 0 <= i < s.len()
        ==> -(PRICE_LIMIT as int) <= (#[trigger] s[i]).close <= PRICE_LIMIT as int
}

/// A flat forecast: `horizon` points pinned at `price`, one per day after
/// `now`, bounds equal to the estimate.
pub open spec fn flat_forecast(now: i64, price: i64, horizon: int) -> Seq<PredictionPoint> {
    Seq::new(horizon as nat, |i: int| PredictionPoint {
        timestamp: (now + DAY_SECONDS * (i + 1)) as i64,
        close: price,
        upper: price,
        lower: price,
    })
}

/// Emits the flat forecast as a vector.
pub fn emit_flat(now: i64, price: i64, horizon: usize) -> (r: Vec<PredictionPoint>)
    requires
        0 <= now <= MAX_NOW,
        horizon <= 31,
    ensures
        r@ == flat_forecast(now, price, horizon as int),
{
    let mut r: Vec<PredictionPoint> = Vec::new();
    let mut i: usize = 0;
    while i < horizon
        invariant
            0 <= i <= horizon,
            horizon <= 31,
            0 <= now <= MAX_NOW,
            r@.len() == i,
            forall|k: int| 0 <= k < i
                ==> #[trigger] r@[k] == (PredictionPoint {
                    timestamp: (now + DAY_SECONDS * (k + 1)) as i64,
                    close: price,
                    upper: price,
                    lower: price,
                }),
        decreases horizon - i,
    {
        let ts = now + DAY_SECONDS * ((i + 1) as i64);
        r.push(PredictionPoint { timestamp: ts, close: price, upper: price, lower: price });
        i += 1;
    }
    proof {
        assert(r@ =~= flat_forecast(now, price, horizon as int));
    }
    r
}

} // verus!
