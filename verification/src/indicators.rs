use vstd::prelude::*;
use crate::num::{div_tz, div_trunc, sqrt_floor, isqrt, clamp_price};
use crate::time_series::{StockPoint, points_ok, point_bounded, PRICE_SCALE, PRICE_LIMIT};

verus! {

/// One per-point quantity a windowed sum can range over.
#[derive(Clone, Copy, PartialEq, Eq, Structural, Debug)]
pub enum Quantity {
    Close,
    Gain,
    Loss,
    Range,
    Diff,
    Volume,
}

/// The quantity `q` reads off one point.
pub open spec fn qty(q: Quantity, p: StockPoint) -> int {
    match q {
        Quantity::Close => p.close as int,
        Quantity::Gain => if p.close - p.open > 0 {
            p.close - p.open
        } else {
            0
        },
        Quantity::Loss => if p.open - p.close > 0 {
            p.open - p.close
        } else {
            0
        },
        Quantity::Range => if p.high - p.low >= 0 {
            p.high - p.low
        } else {
            p.low - p.high
        },
        Quantity::Diff => p.close - p.open,
        Quantity::Volume => p.volume as int,
    }
}

pub open spec fn sum_qty(q: Quantity, s: Seq<StockPoint>) -> int
    decreases s.len(),
{
    if s.len() == 0 {
        0
    } else {
        sum_qty(q, s.drop_last()) + qty(q, s.last())
    }
}

/// Sum of squared deviations of the closes from `m`.
pub open spec fn sum_sq_dev(s: Seq<StockPoint>, m: int) -> int
    decreases s.len(),
{
    if s.len() == 0 {
        0
    } else {
        sum_sq_dev(s.drop_last(), m) + (s.last().close - m) * (s.last().close - m)
    }
}

pub open spec fn max_close(s: Seq<StockPoint>) -> int
    recommends
        s.len() > 0,
    decreases s.len(),
{
    if s.len() <= 1 {
        s[0].close as int
    } else {
        let m = max_close(s.drop_last());
        if s.last().close > m {
            s.last().close as int
        } else {
            m
        }
    }
}

pub open spec fn min_close(s: Seq<StockPoint>) -> int
    recommends
        s.len() > 0,
    decreases s.len(),
{
    if s.len() <= 1 {
        s[0].close as int
    } else {
        let m = min_close(s.drop_last());
        if s.last().close < m {
            s.last().close as int
        } else {
            m
        }
    }
}

/// The trailing `period` points of the series.
pub open spec fn window(s: Seq<StockPoint>, period: int) -> Seq<StockPoint>
    recommends
        0 <= period <= s.len(),
{
    s.subrange(s.len() - period, s.len() as int)
}

// ---- indicator definitions ----

pub open spec fn spec_last_close(s: Seq<StockPoint>) -> int {
    if s.len() == 0 {
        0
    } else {
        s.last().close as int
    }
}

pub open spec fn spec_day_change(s: Seq<StockPoint>) -> int {
    if s.len() == 0 {
        0
    } else {
        s.last().close - s.last().open
    }
}

pub open spec fn spec_day_change_percent(s: Seq<StockPoint>) -> Option<int> {
    if s.len() == 0 || s.last().open == 0 {
        None
    } else {
        Some(clamp_price(div_tz((s.last().close - s.last().open) * 100 * (PRICE_SCALE as int), s.last().open as int)))
    }
}

pub open spec fn spec_sma(s: Seq<StockPoint>, period: int) -> Option<int> {
    if period < 1 || s.len() < period {
        None
    } else {
        Some(div_tz(sum_qty(Quantity::Close, window(s, period)), period))
    }
}

/// Exponential average over the window `w`, seeded with the oldest close and
/// applied forward through the first `k` points, with smoothing 2/(period+1).
pub open spec fn ema_rec(w: Seq<StockPoint>, period: int, k: int) -> int
    recommends
        1 <= k <= w.len(),
    decreases k,
{
    if k <= 1 {
        w[0].close as int
    } else {
        div_tz(2 * w[k - 1].close + (period - 1) * ema_rec(w, period, k - 1), period + 1)
    }
}

pub open spec fn spec_ema(s: Seq<StockPoint>, period: int) -> Option<int> {
    if period < 1 || s.len() < period {
        None
    } else {
        Some(ema_rec(window(s, period), period, period))
    }
}

pub open spec fn spec_mean(s: Seq<StockPoint>, period: int) -> int
    recommends
        1 <= period <= s.len(),
{
    div_tz(sum_qty(Quantity::Close, window(s, period)), period)
}

pub open spec fn spec_variance(s: Seq<StockPoint>, period: int) -> int
    recommends
        1 <= period <= s.len(),
{
    div_tz(sum_sq_dev(window(s, period), spec_mean(s, period)), period)
}

pub open spec fn spec_bollinger(s: Seq<StockPoint>, period: int) -> (Option<int>, Option<int>) {
    if period < 1 || s.len() < period {
        (None, None)
    } else {
        let m = spec_mean(s, period);
        let sd = sqrt_floor(spec_variance(s, period));
        (Some(m + 2 * sd), Some(m - 2 * sd))
    }
}

pub open spec fn spec_rsi(s: Seq<StockPoint>, period: int) -> Option<int> {
    if period < 1 || s.len() < period {
        None
    } else {
        let g = sum_qty(Quantity::Gain, window(s, period));
        let l = sum_qty(Quantity::Loss, window(s, period));
        if l == 0 {
            Some(100 * (PRICE_SCALE as int))
        } else {
            Some(100 * (PRICE_SCALE as int) - div_tz(100 * (PRICE_SCALE as int) * l, g + l))
        }
    }
}

pub open spec fn spec_macd(s: Seq<StockPoint>) -> Option<int> {
    match (spec_ema(s, 7), spec_ema(s, 30)) {
        (Some(e7), Some(e30)) => Some(e7 - e30),
        _ => None,
    }
}

pub open spec fn spec_atr(s: Seq<StockPoint>, period: int) -> Option<int> {
    if period < 1 || s.len() < period {
        None
    } else {
        Some(div_tz(sum_qty(Quantity::Range, window(s, period)), period))
    }
}

pub open spec fn spec_max_drawdown(s: Seq<StockPoint>, period: int) -> Option<int> {
    if period < 1 || s.len() < period {
        None
    } else {
        Some(min_close(window(s, period)) - max_close(window(s, period)))
    }
}

pub open spec fn spec_trend(s: Seq<StockPoint>) -> Option<Seq<char>> {
    if s.len() == 0 {
        None
    } else if s.last().close >= s[0].close {
        Some("up"@)
    } else {
        Some("down"@)
    }
}

pub open spec fn spec_cumulative_gain(s: Seq<StockPoint>, period: int) -> Option<int> {
    if period < 1 || s.len() < period {
        None
    } else {
        Some(clamp_price(sum_qty(Quantity::Diff, window(s, period))))
    }
}

pub open spec fn spec_volume_avg(s: Seq<StockPoint>, period: int) -> Option<int> {
    if period < 1 || s.len() < period {
        None
    } else {
        Some(div_tz(sum_qty(Quantity::Volume, window(s, period)), period))
    }
}

pub open spec fn spec_volatility(s: Seq<StockPoint>, period: int) -> Option<int> {
    if period < 1 || s.len() < period {
        None
    } else {
        Some(sqrt_floor(spec_variance(s, period)))
    }
}

// ---- executable battery ----

fn qty_exec(q: Quantity, p: &StockPoint) -> (r: i128)
    ensures
        r == qty(q, *p),
{
    match q {
        Quantity::Close => p.close as i128,
        Quantity::Gain => {
            let d = (p.close as i128) - (p.open as i128);
            if d > 0 {
                d
            } else {
                0
            }
        },
        Quantity::Loss => {
            let d = (p.open as i128) - (p.close as i128);
            if d > 0 {
                d
            } else {
                0
            }
        },
        Quantity::Range => {
            let d = (p.high as i128) - (p.low as i128);
            if d >= 0 {
                d
            } else {
                -d
            }
        },
        Quantity::Diff => (p.close as i128) - (p.open as i128),
        Quantity::Volume => p.volume as i128,
    }
}

/// Sum of a quantity over the trailing window.
fn window_sum(points: &Vec<StockPoint>, period: usize, q: Quantity) -> (r: i128)
    requires
        1 <= period <= points@.len(),
        points_ok(points@),
    ensures
        r == sum_qty(q, window(points@, period as int)),
        -2 * (period as int) * (PRICE_LIMIT as int) <= r <= 2 * (period as int) * (PRICE_LIMIT as int),
{
    let ghost w = window(points@, period as int);
    let start = points.len() - period;
    let mut acc: i128 = 0;
    let mut k: usize = 0;
    while k < period
        invariant
            0 <= k <= period,
            1 <= period <= points@.len(),
            start == points@.len() - period,
            points_ok(points@),
            w == window(points@, period as int),
            acc == sum_qty(q, w.subrange(0, k as int)),
            -2 * (k as int) * (PRICE_LIMIT as int) <= acc <= 2 * (k as int) * (PRICE_LIMIT as int),
        decreases period - k,
    {
        let v = qty_exec(q, &points[start + k]);
        proof {
            assert(points@[start as int + k as int] == w[k as int]);
            assert(point_bounded(w[k as int]));
            assert(w.subrange(0, k as int + 1).drop_last() =~= w.subrange(0, k as int));
            assert(w.subrange(0, k as int + 1).last() == w[k as int]);
        }
        acc = acc + v;
        k += 1;
    }
    proof {
        assert(w.subrange(0, period as int) =~= w);
    }
    acc
}

/// Minimum and maximum close over the trailing window.
fn window_min_max(points: &Vec<StockPoint>, period: usize) -> (r: (i64, i64))
    requires
        1 <= period <= points@.len(),
        points_ok(points@),
    ensures
        r.0 == min_close(window(points@, period as int)),
        r.1 == max_close(window(points@, period as int)),
        -(PRICE_LIMIT as int) <= r.0 <= PRICE_LIMIT as int,
        -(PRICE_LIMIT as int) <= r.1 <= PRICE_LIMIT as int,
{
    let ghost w = window(points@, period as int);
    let start = points.len() - period;
    let mut lo: i64 = points[start].close;
    let mut hi: i64 = points[start].close;
    let mut k: usize = 1;
    proof {
        assert(points@[start as int] == w[0]);
        assert(w.subrange(0, 1).len() == 1);
        assert(w.subrange(0, 1)[0] == w[0]);
    }
    while k < period
        invariant
            1 <= k <= period,
            1 <= period <= points@.len(),
            start == points@.len() - period,
            points_ok(points@),
            w == window(points@, period as int),
            lo == min_close(w.subrange(0, k as int)),
            hi == max_close(w.subrange(0, k as int)),
            -(PRICE_LIMIT as int) <= lo <= PRICE_LIMIT as int,
            -(PRICE_LIMIT as int) <= hi <= PRICE_LIMIT as int,
        decreases period - k,
    {
        let c = points[start + k].close;
        proof {
            assert(points@[start as int + k as int] == w[k as int]);
            assert(point_bounded(w[k as int]));
            assert(w.subrange(0, k as int + 1).drop_last() =~= w.subrange(0, k as int));
            assert(w.subrange(0, k as int + 1).last() == w[k as int]);
            assert(w.subrange(0, k as int + 1).len() > 1);
        }
        if c < lo {
            lo = c;
        }
        if c > hi {
            hi = c;
        }
        k += 1;
    }
    proof {
        assert(w.subrange(0, period as int) =~= w);
    }
    (lo, hi)
}

/// Close of the final point; 0 on an empty series.
pub fn last_close(points: &Vec<StockPoint>) -> (r: i64)
    requires
        points_ok(points@),
    ensures
        r == spec_last_close(points@),
{
    if points.len() == 0 {
        0
    } else {
        points[points.len() - 1].close
    }
}

/// Close minus open of the final point; 0 on an empty series.
pub fn day_change(points: &Vec<StockPoint>) -> (r: i64)
    requires
        points_ok(points@),
    ensures
        r == spec_day_change(points@),
{
    if points.len() == 0 {
        0
    } else {
        let p = points[points.len() - 1];
        proof {
            assert(point_bounded(points@.last()));
        }
        p.close - p.open
    }
}

/// Day change as a scaled percentage of the open; absent when the series is
/// empty or the final open is zero.
pub fn day_change_percent(points: &Vec<StockPoint>) -> (r: Option<i64>)
    requires
        points_ok(points@),
    ensures
        match r {
            Some(v) => spec_day_change_percent(points@) == Some(v as int),
            None => spec_day_change_percent(points@) is None,
        },
{
    if points.len() == 0 {
        return None;
    }
    let p = points[points.len() - 1];
    if p.open == 0 {
        return None;
    }
    proof {
        assert(point_bounded(points@.last()));
        assert(-(PRICE_LIMIT as int) <= p.close as int <= PRICE_LIMIT as int);
        assert(-(PRICE_LIMIT as int) <= p.open as int <= PRICE_LIMIT as int);
    }
    let num: i128 = ((p.close as i128) - (p.open as i128)) * 1_000_000;
    proof {
        assert(num == (p.close - p.open) * 100 * (PRICE_SCALE as int));
    }
    let q = div_trunc(num, p.open as i128);
    Some(crate::num::clamp_to_price(q))
}

fn clamped_i64(x: i128) -> (r: i64)
    requires
        -(i64::MAX as i128) <= x <= i64::MAX as i128,
    ensures
        r == x,
{
    x as i64
}

/// Arithmetic mean of the trailing closes; absent when the series is shorter
/// than the window.
pub fn sma(points: &Vec<StockPoint>, period: usize) -> (r: Option<i64>)
    requires
        points_ok(points@),
        period >= 1,
    ensures
        match r {
            Some(v) => spec_sma(points@, period as int) == Some(v as int),
            None => spec_sma(points@, period as int) is None,
        },
{
    if points.len() < period {
        return None;
    }
    let s = window_sum(points, period, Quantity::Close);
    let q = div_trunc(s, period as i128);
    proof {
        crate::num::lemma_div_tz_in_range(s as int, period as int, 2 * PRICE_LIMIT as int);
    }
    Some(clamped_i64(q))
}

/// Exponential moving average over the trailing window, seeded with the
/// oldest close of the window and applied forward with smoothing 2/(N+1).
pub fn ema(points: &Vec<StockPoint>, period: usize) -> (r: Option<i64>)
    requires
        points_ok(points@),
        period >= 1,
    ensures
        match r {
            Some(v) => spec_ema(points@, period as int) == Some(v as int),
            None => spec_ema(points@, period as int) is None,
        },
        r matches Some(v) ==> -(PRICE_LIMIT as int) <= v as int <= PRICE_LIMIT as int,
{
    if points.len() < period {
        return None;
    }
    let ghost w = window(points@, period as int);
    let start = points.len() - period;
    proof {
        assert(points@[start as int] == w[0]);
        assert(point_bounded(w[0]));
    }
    let mut e: i128 = points[start].close as i128;
    let mut k: usize = 1;
    while k < period
        invariant
            1 <= k <= period,
            1 <= period <= points@.len(),
            start == points@.len() - period,
            points_ok(points@),
            w == window(points@, period as int),
            e == ema_rec(w, period as int, k as int),
            -(PRICE_LIMIT as int) <= e <= PRICE_LIMIT as int,
        decreases period - k,
    {
        let c = points[start + k].close;
        proof {
            assert(points@[start as int + k as int] == w[k as int]);
            assert(point_bounded(w[k as int]));
        }
        proof {
            assert(-((period - 1) as int) * (PRICE_LIMIT as int) <= ((period - 1) as int) * (e as int)
                <= ((period - 1) as int) * (PRICE_LIMIT as int)) by (nonlinear_arith)
                requires
                    0 <= (period - 1) as int,
                    -(PRICE_LIMIT as int) <= e as int <= PRICE_LIMIT as int,
            ;
        }
        let num: i128 = 2 * (c as i128) + ((period - 1) as i128) * e;
        let next = div_trunc(num, (period + 1) as i128);
        proof {
            assert(-((period as int + 1) * (PRICE_LIMIT as int)) <= num as int
                <= (period as int + 1) * (PRICE_LIMIT as int));
            crate::num::lemma_div_tz_in_range(num as int, period as int + 1, PRICE_LIMIT as int);
        }
        e = next;
        k += 1;
    }
    Some(clamped_i64(e))
}

/// Bollinger bands: mean of the window plus and minus twice the population
/// standard deviation (floor of the square root of the variance).
pub fn bollinger(points: &Vec<StockPoint>, period: usize) -> (r: (Option<i64>, Option<i64>))
    requires
        points_ok(points@),
        period >= 1,
    ensures
        ({
            let b = spec_bollinger(points@, period as int);
            (match r.0 {
                Some(v) => b.0 == Some(v as int),
                None => b.0 is None,
            }) && (match r.1 {
                Some(v) => b.1 == Some(v as int),
                None => b.1 is None,
            })
        }),
{
    if points.len() < period {
        return (None, None);
    }
    let (m, sd) = mean_and_sd(points, period);
    (Some(m + 2 * sd), Some(m - 2 * sd))
}

/// Mean and standard deviation of the trailing closes.
fn mean_and_sd(points: &Vec<StockPoint>, period: usize) -> (r: (i64, i64))
    requires
        points_ok(points@),
        1 <= period <= points@.len(),
    ensures
        r.0 == spec_mean(points@, period as int),
        r.1 == sqrt_floor(spec_variance(points@, period as int)),
        -(PRICE_LIMIT as int) <= r.0 <= PRICE_LIMIT as int,
        0 <= r.1 <= 2 * (PRICE_LIMIT as int),
{
    let ghost w = window(points@, period as int);
    let s = window_sum(points, period, Quantity::Close);
    let mq = div_trunc(s, period as i128);
    proof {
        lemma_sum_close_tight(points@, period as int);
        crate::num::lemma_div_tz_in_range(s as int, period as int, PRICE_LIMIT as int);
    }
    let m = clamped_i64(mq);
    let start = points.len() - period;
    let mut acc: i128 = 0;
    let mut k: usize = 0;
    while k < period
        invariant
            0 <= k <= period,
            1 <= period <= points@.len(),
            start == points@.len() - period,
            points_ok(points@),
            w == window(points@, period as int),
            -(PRICE_LIMIT as int) <= m <= PRICE_LIMIT as int,
            m == spec_mean(points@, period as int),
            acc == sum_sq_dev(w.subrange(0, k as int), m as int),
            0 <= acc <= (k as int) * 4 * (PRICE_LIMIT as int) * (PRICE_LIMIT as int),
        decreases period - k,
    {
        let c = points[start + k].close;
        proof {
            assert(points@[start as int + k as int] == w[k as int]);
            assert(point_bounded(w[k as int]));
            assert(w.subrange(0, k as int + 1).drop_last() =~= w.subrange(0, k as int));
            assert(w.subrange(0, k as int + 1).last() == w[k as int]);
        }
        let d: i128 = (c as i128) - (m as i128);
        proof {
            assert(0 <= (d as int) * (d as int) <= 4 * (PRICE_LIMIT as int) * (PRICE_LIMIT as int))
                by (nonlinear_arith)
                requires
                    -2 * (PRICE_LIMIT as int) <= d as int <= 2 * (PRICE_LIMIT as int),
            ;
        }
        let sq: i128 = d * d;
        acc = acc + sq;
        k += 1;
    }
    proof {
        assert(w.subrange(0, period as int) =~= w);
    }
    proof {
        assert(acc as int <= (period as int) * (4 * (PRICE_LIMIT as int) * (PRICE_LIMIT as int)))
            by (nonlinear_arith)
            requires
                acc as int <= (period as int) * 4 * (PRICE_LIMIT as int) * (PRICE_LIMIT as int),
        ;
        assert(-(period as int) * (4 * (PRICE_LIMIT as int) * (PRICE_LIMIT as int)) <= acc as int)
            by (nonlinear_arith)
            requires
                0 <= acc as int,
                1 <= period as int,
        ;
    }
    let var = div_trunc(acc, period as i128);
    proof {
        crate::num::lemma_div_tz_in_range(acc as int, period as int, 4 * (PRICE_LIMIT as int) * (PRICE_LIMIT as int));
        assert(div_tz(acc as int, period as int) >= 0);
    }
    let sd = isqrt(var);
    proof {
        lemma_sqrt_in_range(var as int, 2 * PRICE_LIMIT as int);
    }
    (m, sd as i64)
}

/// The sum of closes over the window is at most `period * PRICE_LIMIT`.
proof fn lemma_sum_close_tight(s: Seq<StockPoint>, period: int)
    requires
        points_ok(s),
        1 <= period <= s.len(),
    ensures
        -(period * (PRICE_LIMIT as int)) <= sum_qty(Quantity::Close, window(s, period))
            <= period * (PRICE_LIMIT as int),
{
    let w = window(s, period);
    assert forall|i: int| 0 <= i < w.len() implies point_bounded(#[trigger] w[i]) by {
        assert(w[i] == s[s.len() - period + i]);
    }
    lemma_sum_close_bound(w);
}

proof fn lemma_sum_close_bound(w: Seq<StockPoint>)
    requires
        forall|i: int| 0 <= i < w.len() ==> point_bounded(#[trigger] w[i]),
    ensures
        -(w.len() * (PRICE_LIMIT as int)) <= sum_qty(Quantity::Close, w) <= w.len() * (PRICE_LIMIT as int),
    decreases w.len(),
{
    if w.len() > 0 {
        lemma_sum_close_bound(w.drop_last());
        assert(point_bounded(w[w.len() - 1]));
    }
}

/// `sqrt_floor` of a value at most `bound^2 - 1` is below `bound`.
proof fn lemma_sqrt_in_range(x: int, bound: int)
    requires
        x >= 0,
        bound >= 1,
        x <= bound * bound,
    ensures
        0 <= sqrt_floor(x) <= bound,
{
    crate::num::lemma_sqrt_floor_bounds(x);
    let r = sqrt_floor(x);
    assert(r <= bound) by (nonlinear_arith)
        requires
            r >= 0,
            bound >= 1,
            r * r <= x,
            x <= bound * bound,
    ;
}

/// Relative-strength index over the trailing window: 100 when there are no
/// losses, otherwise `100 - 100 / (1 + gains / losses)`, scaled.
pub fn rsi(points: &Vec<StockPoint>, period: usize) -> (r: Option<i64>)
    requires
        points_ok(points@),
        period >= 1,
    ensures
        match r {
            Some(v) => spec_rsi(points@, period as int) == Some(v as int),
            None => spec_rsi(points@, period as int) is None,
        },
{
    if points.len() < period {
        return None;
    }
    let g = window_sum(points, period, Quantity::Gain);
    let l = window_sum(points, period, Quantity::Loss);
    proof {
        lemma_sum_qty_nonneg(Quantity::Gain, window(points@, period as int));
        lemma_sum_qty_nonneg(Quantity::Loss, window(points@, period as int));
    }
    if l == 0 {
        Some(100 * PRICE_SCALE)
    } else {
        let num: i128 = 100 * (PRICE_SCALE as i128) * l;
        let q = div_trunc(num, g + l);
        proof {
            crate::num::lemma_div_tz_in_range(num as int, (g + l) as int, 100 * PRICE_SCALE as int);
            assert(num as int <= ((g + l) as int) * (100 * PRICE_SCALE as int)) by (nonlinear_arith)
                requires
                    g >= 0,
                    l >= 1,
                    num == 100 * (PRICE_SCALE as i128) * l,
                    PRICE_SCALE == 10_000i64,
            ;
            assert(div_tz(num as int, (g + l) as int) >= 0);
        }
        Some(100 * PRICE_SCALE - (q as i64))
    }
}

/// Gains and losses are non-negative, so their sums are too.
proof fn lemma_sum_qty_nonneg(q: Quantity, s: Seq<StockPoint>)
    requires
        q == Quantity::Gain || q == Quantity::Loss || q == Quantity::Range,
    ensures
        sum_qty(q, s) >= 0,
    decreases s.len(),
{
    if s.len() > 0 {
        lemma_sum_qty_nonneg(q, s.drop_last());
    }
}

/// Difference of the fast and slow exponential averages.
pub fn macd(points: &Vec<StockPoint>) -> (r: Option<i64>)
    requires
        points_ok(points@),
    ensures
        match r {
            Some(v) => spec_macd(points@) == Some(v as int),
            None => spec_macd(points@) is None,
        },
{
    let e7 = ema(points, 7);
    let e30 = ema(points, 30);
    match (e7, e30) {
        (Some(a), Some(b)) => Some(a - b),
        _ => None,
    }
}

/// Mean absolute high-low range over the trailing window.
pub fn atr(points: &Vec<StockPoint>, period: usize) -> (r: Option<i64>)
    requires
        points_ok(points@),
        period >= 1,
    ensures
        match r {
            Some(v) => spec_atr(points@, period as int) == Some(v as int),
            None => spec_atr(points@, period as int) is None,
        },
{
    if points.len() < period {
        return None;
    }
    let s = window_sum(points, period, Quantity::Range);
    let q = div_trunc(s, period as i128);
    proof {
        crate::num::lemma_div_tz_in_range(s as int, period as int, 2 * PRICE_LIMIT as int);
    }
    Some(q as i64)
}

/// Lowest close minus highest close over the window: a non-positive number.
pub fn max_drawdown(points: &Vec<StockPoint>, period: usize) -> (r: Option<i64>)
    requires
        points_ok(points@),
        period >= 1,
    ensures
        match r {
            Some(v) => spec_max_drawdown(points@, period as int) == Some(v as int),
            None => spec_max_drawdown(points@, period as int) is None,
        },
{
    if points.len() < period {
        return None;
    }
    let (lo, hi) = window_min_max(points, period);
    Some(lo - hi)
}

/// "up" when the last close is at least the first close, else "down".
pub fn trend(points: &Vec<StockPoint>) -> (r: Option<String>)
    requires
        points_ok(points@),
    ensures
        match r {
            Some(v) => spec_trend(points@) == Some(v@),
            None => spec_trend(points@) is None,
        },
{
    if points.len() == 0 {
        return None;
    }
    let first = points[0].close;
    let last = points[points.len() - 1].close;
    if last >= first {
        Some("up".to_owned())
    } else {
        Some("down".to_owned())
    }
}

/// Sum of close-minus-open over the trailing window.
pub fn cumulative_gain(points: &Vec<StockPoint>, period: usize) -> (r: Option<i64>)
    requires
        points_ok(points@),
        period >= 1,
    ensures
        match r {
            Some(v) => spec_cumulative_gain(points@, period as int) == Some(v as int),
            None => spec_cumulative_gain(points@, period as int) is None,
        },
{
    if points.len() < period {
        return None;
    }
    let s = window_sum(points, period, Quantity::Diff);
    Some(crate::num::clamp_to_price(s))
}

/// Mean volume over the trailing window.
pub fn volume_avg(points: &Vec<StockPoint>, period: usize) -> (r: Option<i64>)
    requires
        points_ok(points@),
        period >= 1,
    ensures
        match r {
            Some(v) => spec_volume_avg(points@, period as int) == Some(v as int),
            None => spec_volume_avg(points@, period as int) is None,
        },
{
    if points.len() < period {
        return None;
    }
    let s = window_sum(points, period, Quantity::Volume);
    let q = div_trunc(s, period as i128);
    proof {
        crate::num::lemma_div_tz_in_range(s as int, period as int, 2 * PRICE_LIMIT as int);
    }
    Some(q as i64)
}

/// Population standard deviation of the trailing closes.
pub fn volatility(points: &Vec<StockPoint>, period: usize) -> (r: Option<i64>)
    requires
        points_ok(points@),
        period >= 1,
    ensures
        match r {
            Some(v) => spec_volatility(points@, period as int) == Some(v as int),
            None => spec_volatility(points@, period as int) is None,
        },
{
    if points.len() < period {
        return None;
    }
    let (_, sd) = mean_and_sd(points, period);
    Some(sd)
}

// ---- laws of the battery ----

proof fn lemma_sum_close_const(w: Seq<StockPoint>, c: i64)
    requires
        forall|i: int| 0 <= i < w.len() ==> (#[trigger] w[i]).close == c,
    ensures
        sum_qty(Quantity::Close, w) == w.len() * c,
    decreases w.len(),
{
    if w.len() > 0 {
        assert(forall|i: int| 0 <= i < w.drop_last().len() ==> (#[trigger] w.drop_last()[i]).close == c);
        lemma_sum_close_const(w.drop_last(), c);
        assert(w[w.len() - 1].close == c);
        assert((w.len() - 1) * c + c == w.len() * c) by (nonlinear_arith);
    } else {
        assert(w.len() * c == 0) by (nonlinear_arith)
            requires
                w.len() == 0,
        ;
    }
}

/// The simple moving average of a constant-price series of length at least
/// the window is that constant.
pub proof fn lemma_sma_constant(s: Seq<StockPoint>, period: int, c: i64)
    requires
        1 <= period <= s.len(),
        forall|i: int| 0 <= i < s.len() ==> (#[trigger] s[i]).close == c,
    ensures
        spec_sma(s, period) == Some(c as int),
{
    let w = window(s, period);
    assert forall|i: int| 0 <= i < w.len() implies (#[trigger] w[i]).close == c by {
        assert(w[i] == s[s.len() - period + i]);
    }
    lemma_sum_close_const(w, c);
    crate::num::lemma_div_tz_exact(c as int, period);
}

/// The exponential moving average of a constant-price series of length at
/// least the window is that constant.
pub proof fn lemma_ema_constant(s: Seq<StockPoint>, period: int, c: i64)
    requires
        1 <= period <= s.len(),
        forall|i: int| 0 <= i < s.len() ==> (#[trigger] s[i]).close == c,
    ensures
        spec_ema(s, period) == Some(c as int),
{
    let w = window(s, period);
    assert forall|i: int| 0 <= i < w.len() implies (#[trigger] w[i]).close == c by {
        assert(w[i] == s[s.len() - period + i]);
    }
    lemma_ema_rec_constant(w, period, period, c);
}

proof fn lemma_ema_rec_constant(w: Seq<StockPoint>, period: int, k: int, c: i64)
    requires
        1 <= k <= w.len(),
        period >= 1,
        forall|i: int| 0 <= i < w.len() ==> (#[trigger] w[i]).close == c,
    ensures
        ema_rec(w, period, k) == c as int,
    decreases k,
{
    if k <= 1 {
        assert(w[0].close == c);
    } else {
        lemma_ema_rec_constant(w, period, k - 1, c);
        assert(w[k - 1].close == c);
        assert(2 * (c as int) + (period - 1) * (c as int) == (period + 1) * (c as int)) by (nonlinear_arith);
        crate::num::lemma_div_tz_exact(c as int, period + 1);
    }
}

proof fn lemma_sum_loss_zero(w: Seq<StockPoint>)
    requires
        forall|i: int| 0 <= i < w.len() ==> (#[trigger] w[i]).close >= w[i].open,
    ensures
        sum_qty(Quantity::Loss, w) == 0,
    decreases w.len(),
{
    if w.len() > 0 {
        assert(forall|i: int| 0 <= i < w.drop_last().len()
            ==> (#[trigger] w.drop_last()[i]).close >= w.drop_last()[i].open);
        lemma_sum_loss_zero(w.drop_last());
        assert(w[w.len() - 1].close >= w[w.len() - 1].open);
    }
}

proof fn lemma_sum_gain_zero(w: Seq<StockPoint>)
    requires
        forall|i: int| 0 <= i < w.len() ==> (#[trigger] w[i]).close <= w[i].open,
    ensures
        sum_qty(Quantity::Gain, w) == 0,
    decreases w.len(),
{
    if w.len() > 0 {
        assert(forall|i: int| 0 <= i < w.drop_last().len()
            ==> (#[trigger] w.drop_last()[i]).close <= w.drop_last()[i].open);
        lemma_sum_gain_zero(w.drop_last());
        assert(w[w.len() - 1].close <= w[w.len() - 1].open);
    }
}

proof fn lemma_sum_loss_pos(w: Seq<StockPoint>)
    requires
        w.len() >= 1,
        forall|i: int| 0 <= i < w.len() ==> (#[trigger] w[i]).close < w[i].open,
    ensures
        sum_qty(Quantity::Loss, w) >= 1,
    decreases w.len(),
{
    assert(w[w.len() - 1].close < w[w.len() - 1].open);
    assert(w.last() == w[w.len() - 1]);
    assert(qty(Quantity::Loss, w.last()) >= 1);
    if w.len() == 1 {
        assert(w.drop_last().len() == 0);
        assert(sum_qty(Quantity::Loss, w.drop_last()) == 0);
    } else {
        assert(forall|i: int| 0 <= i < w.drop_last().len()
            ==> (#[trigger] w.drop_last()[i]).close < w.drop_last()[i].open);
        lemma_sum_loss_pos(w.drop_last());
    }
}

/// The relative-strength index of a window with no losing interval is 100
/// (scaled).
pub proof fn lemma_rsi_all_gain(s: Seq<StockPoint>, period: int)
    requires
        1 <= period <= s.len(),
        forall|i: int| 0 <= i < s.len() ==> (#[trigger] s[i]).close >= s[i].open,
    ensures
        spec_rsi(s, period) == Some(100 * (PRICE_SCALE as int)),
{
    let w = window(s, period);
    assert forall|i: int| 0 <= i < w.len() implies (#[trigger] w[i]).close >= w[i].open by {
        assert(w[i] == s[s.len() - period + i]);
    }
    lemma_sum_loss_zero(w);
}

/// The relative-strength index of a window of strictly losing intervals is
/// 0.
pub proof fn lemma_rsi_all_loss(s: Seq<StockPoint>, period: int)
    requires
        1 <= period <= s.len(),
        forall|i: int| 0 <= i < s.len() ==> (#[trigger] s[i]).close < s[i].open,
    ensures
        spec_rsi(s, period) == Some(0int),
{
    let w = window(s, period);
    assert forall|i: int| 0 <= i < w.len() implies (#[trigger] w[i]).close < w[i].open by {
        assert(w[i] == s[s.len() - period + i]);
    }
    assert forall|i: int| 0 <= i < w.len() implies (#[trigger] w[i]).close <= w[i].open by {
        assert(w[i].close < w[i].open);
    }
    lemma_sum_gain_zero(w);
    lemma_sum_loss_pos(w);
    let l = sum_qty(Quantity::Loss, w);
    assert(100 * (PRICE_SCALE as int) * l == l * (100 * (PRICE_SCALE as int))) by (nonlinear_arith);
    crate::num::lemma_div_tz_exact(100 * (PRICE_SCALE as int), l);
    assert(l * (100 * (PRICE_SCALE as int)) == l * (100 * (PRICE_SCALE as int)));
    assert(div_tz(100 * (PRICE_SCALE as int) * l, 0 + l) == 100 * (PRICE_SCALE as int));
}

} // verus!
