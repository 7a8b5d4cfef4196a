use vstd::prelude::*;
use crate::num::{div_tz, div_trunc, clamp_price};
use crate::prediction_point::{PredictionPoint, history_ok, flat_forecast, emit_flat, MAX_NOW, DAY_SECONDS};
use crate::time_series::PRICE_LIMIT;

verus! {

/// Price a naive forecast pins on an empty history: 100 units, scaled.
pub const DEFAULT_NAIVE_PRICE: i64 = 1_000_000;

/// A named forecasting strategy: a history in, a fixed-horizon point
/// sequence out, with one prediction per future day.
pub trait StockPredictor {
    spec fn spec_method_name(&self) -> Seq<char>;

    spec fn spec_predict(&self, now: i64, history: Seq<PredictionPoint>) -> Seq<PredictionPoint>;

    fn method_name(&self) -> (r: &str)
        ensures
            r@ == self.spec_method_name(),
    ;

    fn predict(&self, now: i64, history: &Vec<PredictionPoint>) -> (r: Vec<PredictionPoint>)
        requires
            history_ok(history@),
            0 <= now <= MAX_NOW,
        ensures
            r@ == self.spec_predict(now, history@),
    ;
}

// ---- Naive ----

/// Repeats the last known close for 30 days; 100.0 when the history is
/// empty.
pub struct NaivePredictor;

pub open spec fn spec_naive(now: i64, h: Seq<PredictionPoint>) -> Seq<PredictionPoint> {
    let price = if h.len() == 0 {
        DEFAULT_NAIVE_PRICE
    } else {
        h.last().close
    };
    flat_forecast(now, price, 30)
}

impl StockPredictor for NaivePredictor {
    open spec fn spec_method_name(&self) -> Seq<char> {
        "NAIVE"@
    }

    open spec fn spec_predict(&self, now: i64, history: Seq<PredictionPoint>) -> Seq<PredictionPoint> {
        spec_naive(now, history)
    }

    fn method_name(&self) -> (r: &str) {
        "NAIVE"
    }

    fn predict(&self, now: i64, history: &Vec<PredictionPoint>) -> (r: Vec<PredictionPoint>) {
        let price = if history.len() == 0 {
            DEFAULT_NAIVE_PRICE
        } else {
            history[history.len() - 1].close
        };
        emit_flat(now, price, 30)
    }
}

// ---- AR (persistence) ----

/// Repeats the last known close for 31 days; empty history gives an empty
/// forecast.
pub struct ArPredictor;

pub open spec fn spec_ar(now: i64, h: Seq<PredictionPoint>) -> Seq<PredictionPoint> {
    if h.len() == 0 {
        Seq::empty()
    } else {
        flat_forecast(now, h.last().close, 31)
    }
}

impl StockPredictor for ArPredictor {
    open spec fn spec_method_name(&self) -> Seq<char> {
        "AR"@
    }

    open spec fn spec_predict(&self, now: i64, history: Seq<PredictionPoint>) -> Seq<PredictionPoint> {
        spec_ar(now, history)
    }

    fn method_name(&self) -> (r: &str) {
        "AR"
    }

    fn predict(&self, now: i64, history: &Vec<PredictionPoint>) -> (r: Vec<PredictionPoint>) {
        if history.len() == 0 {
            return Vec::new();
        }
        let price = history[history.len() - 1].close;
        let r = emit_flat(now, price, 31);
        r
    }
}

// ---- EMA ----

/// Exponential smoothing over the whole history with factor 2/(n+1), seeded
/// with the oldest close; the smoothed value is repeated for 31 days.
pub struct EmaPredictor;

/// Smoothed value after folding the first `j` closes of `h` forward.
pub open spec fn ema_close_rec(h: Seq<PredictionPoint>, j: int) -> int
    recommends
        1 <= j <= h.len(),
    decreases j,
{
    if j <= 1 {
        h[0].close as int
    } else {
        div_tz(2 * h[j - 1].close + (h.len() - 1) * ema_close_rec(h, j - 1), h.len() as int + 1)
    }
}

pub open spec fn spec_ema_forecast(now: i64, h: Seq<PredictionPoint>) -> Seq<PredictionPoint> {
    if h.len() == 0 {
        Seq::empty()
    } else {
        flat_forecast(now, ema_close_rec(h, h.len() as int) as i64, 31)
    }
}

impl StockPredictor for EmaPredictor {
    open spec fn spec_method_name(&self) -> Seq<char> {
        "EMA"@
    }

    open spec fn spec_predict(&self, now: i64, history: Seq<PredictionPoint>) -> Seq<PredictionPoint> {
        spec_ema_forecast(now, history)
    }

    fn method_name(&self) -> (r: &str) {
        "EMA"
    }

    fn predict(&self, now: i64, history: &Vec<PredictionPoint>) -> (r: Vec<PredictionPoint>) {
        if history.len() == 0 {
            return Vec::new();
        }
        let n = history.len();
        let mut e: i128 = history[0].close as i128;
        let mut j: usize = 1;
        while j < n
            invariant
                1 <= j <= n,
                n == history@.len(),
                history_ok(history@),
                e == ema_close_rec(history@, j as int),
                -(PRICE_LIMIT as int) <= e <= PRICE_LIMIT as int,
            decreases n - j,
        {
            let c = history[j].close;
            proof {
                assert(-(PRICE_LIMIT as int) <= history@[j as int].close <= PRICE_LIMIT as int);
                assert(-((n - 1) as int) * (PRICE_LIMIT as int) <= ((n - 1) as int) * (e as int)
                    <= ((n - 1) as int) * (PRICE_LIMIT as int)) by (nonlinear_arith)
                    requires
                        0 <= (n - 1) as int,
                        -(PRICE_LIMIT as int) <= e as int <= PRICE_LIMIT as int,
                ;
            }
            let num: i128 = 2 * (c as i128) + ((n - 1) as i128) * e;
            let next = div_trunc(num, (n + 1) as i128);
            proof {
                assert(-((n as int + 1) * (PRICE_LIMIT as int)) <= num as int
                    <= (n as int + 1) * (PRICE_LIMIT as int));
                crate::num::lemma_div_tz_in_range(num as int, n as int + 1, PRICE_LIMIT as int);
            }
            e = next;
            j += 1;
        }
        emit_flat(now, e as i64, 31)
    }
}

/// Exponential smoothing of a constant history is that constant, so the
/// whole forecast is pinned at it.
pub proof fn lemma_ema_forecast_constant(h: Seq<PredictionPoint>, c: i64)
    requires
        h.len() >= 1,
        forall|i: int| 0 <= i < h.len() ==> (#[trigger] h[i]).close == c,
    ensures
        ema_close_rec(h, h.len() as int) == c as int,
{
    lemma_ema_close_rec_constant(h, h.len() as int, c);
}

proof fn lemma_ema_close_rec_constant(h: Seq<PredictionPoint>, j: int, c: i64)
    requires
        1 <= j <= h.len(),
        forall|i: int| 0 <= i < h.len() ==> (#[trigger] h[i]).close == c,
    ensures
        ema_close_rec(h, j) == c as int,
    decreases j,
{
    if j <= 1 {
        assert(h[0].close == c);
    } else {
        lemma_ema_close_rec_constant(h, j - 1, c);
        assert(h[j - 1].close == c);
        let n = h.len() as int;
        assert(2 * (c as int) + (n - 1) * (c as int) == (n + 1) * (c as int)) by (nonlinear_arith);
        crate::num::lemma_div_tz_exact(c as int, n + 1);
    }
}

// ---- SMA ----

/// Averages the 20 highest closes of the history and repeats that mean for
/// 31 days; empty history gives an empty forecast.
pub struct SmaPredictor;

/// Descending order.
pub open spec fn sorted_desc(s: Seq<i64>) -> bool {
    forall|i: int, j: int| 0 <= i <= j < s.len() ==> (#[trigger] s[i]) >= (#[trigger] s[j])
}

/// Insertion of `v` into a descending run, after every value at least `v`.
pub open spec fn insert_desc(s: Seq<i64>, v: i64) -> Seq<i64>
    decreases s.len(),
{
    if s.len() == 0 {
        seq![v]
    } else if s.last() >= v {
        s.push(v)
    } else {
        insert_desc(s.drop_last(), v).push(s.last())
    }
}

/// Descending sort of the values.
pub open spec fn sort_desc(s: Seq<i64>) -> Seq<i64>
    decreases s.len(),
{
    if s.len() == 0 {
        Seq::empty()
    } else {
        insert_desc(sort_desc(s.drop_last()), s.last())
    }
}

proof fn lemma_insert_desc_len(s: Seq<i64>, v: i64)
    ensures
        insert_desc(s, v).len() == s.len() + 1,
    decreases s.len(),
{
    if s.len() > 0 && !(s.last() >= v) {
        lemma_insert_desc_len(s.drop_last(), v);
    }
}

/// Insertion keeps a common lower bound.
proof fn lemma_insert_desc_lb(s: Seq<i64>, v: i64, b: i64)
    requires
        forall|i: int| 0 <= i < s.len() ==> (#[trigger] s[i]) >= b,
        v >= b,
    ensures
        forall|i: int| 0 <= i < insert_desc(s, v).len() ==> (#[trigger] insert_desc(s, v)[i]) >= b,
    decreases s.len(),
{
    let r = insert_desc(s, v);
    if s.len() == 0 {
        assert forall|i: int| 0 <= i < r.len() implies (#[trigger] r[i]) >= b by {
            assert(r[0] == v);
        }
    } else if s.last() >= v {
        assert forall|i: int| 0 <= i < r.len() implies (#[trigger] r[i]) >= b by {
            if i < s.len() {
                assert(r[i] == s[i]);
            } else {
                assert(r[i] == v);
            }
        }
    } else {
        assert(forall|i: int| 0 <= i < s.drop_last().len() ==> (#[trigger] s.drop_last()[i]) >= b);
        lemma_insert_desc_lb(s.drop_last(), v, b);
        let t = insert_desc(s.drop_last(), v);
        assert forall|i: int| 0 <= i < r.len() implies (#[trigger] r[i]) >= b by {
            if i < t.len() {
                assert(r[i] == t[i]);
            } else {
                assert(r[i] == s.last());
                assert(s[s.len() - 1] >= b);
            }
        }
    }
}

/// Insertion keeps a common magnitude bound.
proof fn lemma_insert_desc_bounded(s: Seq<i64>, v: i64, b: i64)
    requires
        forall|i: int| 0 <= i < s.len() ==> -b <= (#[trigger] s[i]) <= b,
        -b <= v <= b,
    ensures
        forall|i: int| 0 <= i < insert_desc(s, v).len() ==> -b <= (#[trigger] insert_desc(s, v)[i]) <= b,
    decreases s.len(),
{
    let r = insert_desc(s, v);
    if s.len() == 0 {
        assert forall|i: int| 0 <= i < r.len() implies -b <= (#[trigger] r[i]) <= b by {
            assert(r[0] == v);
        }
    } else if s.last() >= v {
        assert forall|i: int| 0 <= i < r.len() implies -b <= (#[trigger] r[i]) <= b by {
            if i < s.len() {
                assert(r[i] == s[i]);
            } else {
                assert(r[i] == v);
            }
        }
    } else {
        assert(forall|i: int| 0 <= i < s.drop_last().len() ==> -b <= (#[trigger] s.drop_last()[i]) <= b);
        lemma_insert_desc_bounded(s.drop_last(), v, b);
        let t = insert_desc(s.drop_last(), v);
        assert forall|i: int| 0 <= i < r.len() implies -b <= (#[trigger] r[i]) <= b by {
            if i < t.len() {
                assert(r[i] == t[i]);
            } else {
                assert(r[i] == s.last());
                assert(-b <= s[s.len() - 1] <= b);
            }
        }
    }
}

proof fn lemma_insert_desc_sorted(s: Seq<i64>, v: i64)
    requires
        sorted_desc(s),
    ensures
        sorted_desc(insert_desc(s, v)),
    decreases s.len(),
{
    let r = insert_desc(s, v);
    if s.len() == 0 {
    } else if s.last() >= v {
        assert forall|i: int, j: int| 0 <= i <= j < r.len() implies (#[trigger] r[i]) >= (#[trigger] r[j]) by {
            if j < s.len() {
            } else {
                if i < s.len() {
                    assert(s[i] >= s.last());
                }
            }
        }
    } else {
        assert(sorted_desc(s.drop_last())) by {
            assert(forall|i: int, j: int| 0 <= i <= j < s.drop_last().len()
                ==> (#[trigger] s.drop_last()[i]) >= (#[trigger] s.drop_last()[j]));
        }
        lemma_insert_desc_sorted(s.drop_last(), v);
        let t = insert_desc(s.drop_last(), v);
        assert(forall|i: int| 0 <= i < s.drop_last().len() ==> (#[trigger] s.drop_last()[i]) >= s.last());
        lemma_insert_desc_lb(s.drop_last(), v, s.last());
        assert forall|i: int, j: int| 0 <= i <= j < r.len() implies (#[trigger] r[i]) >= (#[trigger] r[j]) by {
            if j < t.len() {
            } else {
                if i < t.len() {
                    assert(r[j] == s.last());
                    assert(r[i] == t[i]);
                    assert(t[i] >= s.last());
                }
            }
        }
    }
}

/// Inserting at the first position from the end whose predecessor is at
/// least `v` realises `insert_desc`.
proof fn lemma_insert_desc_at(s: Seq<i64>, v: i64, j: int)
    requires
        sorted_desc(s),
        0 <= j <= s.len(),
        forall|i: int| j <= i < s.len() ==> (#[trigger] s[i]) < v,
        j > 0 ==> s[j - 1] >= v,
    ensures
        insert_desc(s, v) == s.subrange(0, j).push(v) + s.subrange(j, s.len() as int),
    decreases s.len(),
{
    if s.len() == 0 {
        assert(insert_desc(s, v) =~= s.subrange(0, j).push(v) + s.subrange(j, s.len() as int));
    } else if j == s.len() {
        assert(s.last() >= v);
        assert(s.subrange(0, j) =~= s);
        assert(s.push(v) =~= s.subrange(0, j).push(v) + s.subrange(j, s.len() as int));
    } else {
        assert(s.last() < v);
        assert(sorted_desc(s.drop_last())) by {
            assert(forall|a: int, b: int| 0 <= a <= b < s.drop_last().len()
                ==> (#[trigger] s.drop_last()[a]) >= (#[trigger] s.drop_last()[b]));
        }
        assert(forall|i: int| j <= i < s.drop_last().len() ==> (#[trigger] s.drop_last()[i]) < v);
        lemma_insert_desc_at(s.drop_last(), v, j);
        assert(s.drop_last().subrange(0, j) =~= s.subrange(0, j));
        assert((s.drop_last().subrange(0, j).push(v) + s.drop_last().subrange(j, s.len() - 1)).push(s.last())
            =~= s.subrange(0, j).push(v) + s.subrange(j, s.len() as int));
    }
}

/// Inserts `v` into a descending vector.
fn insert_sorted_desc(res: &mut Vec<i64>, v: i64)
    requires
        sorted_desc(old(res)@),
    ensures
        final(res)@ == insert_desc(old(res)@, v),
{
    let mut j: usize = res.len();
    while j > 0 && res[j - 1] < v
        invariant
            0 <= j <= res@.len(),
            forall|i: int| j <= i < res@.len() ==> (#[trigger] res@[i]) < v,
            sorted_desc(res@),
        decreases j,
    {
        j -= 1;
    }
    proof {
        lemma_insert_desc_at(res@, v, j as int);
    }
    res.insert(j, v);
    proof {
        assert(res@ =~= old(res)@.subrange(0, j as int).push(v)
            + old(res)@.subrange(j as int, old(res)@.len() as int));
    }
}

/// Descending sort of the values.
pub fn sort_values_desc(v: &Vec<i64>) -> (r: Vec<i64>)
    ensures
        r@ == sort_desc(v@),
        sorted_desc(r@),
    {
    let mut r: Vec<i64> = Vec::new();
    let mut i: usize = 0;
    while i < v.len()
        invariant
            0 <= i <= v@.len(),
            r@ == sort_desc(v@.subrange(0, i as int)),
            sorted_desc(r@),
        decreases v@.len() - i,
    {
        proof {
            lemma_insert_desc_sorted(r@, v@[i as int]);
            assert(v@.subrange(0, i as int + 1).drop_last() =~= v@.subrange(0, i as int));
            assert(v@.subrange(0, i as int + 1).last() == v@[i as int]);
        }
        insert_sorted_desc(&mut r, v[i]);
        i += 1;
    }
    proof {
        assert(v@.subrange(0, v@.len() as int) =~= v@);
    }
    r
}

/// Sorting keeps length and the common magnitude bound.
proof fn lemma_sort_desc_bounded(s: Seq<i64>, b: i64)
    requires
        forall|i: int| 0 <= i < s.len() ==> -b <= (#[trigger] s[i]) <= b,
    ensures
        sort_desc(s).len() == s.len(),
        forall|i: int| 0 <= i < sort_desc(s).len() ==> -b <= (#[trigger] sort_desc(s)[i]) <= b,
    decreases s.len(),
{
    if s.len() > 0 {
        assert(forall|i: int| 0 <= i < s.drop_last().len() ==> -b <= (#[trigger] s.drop_last()[i]) <= b);
        lemma_sort_desc_bounded(s.drop_last(), b);
        lemma_insert_desc_len(sort_desc(s.drop_last()), s.last());
        assert(-b <= s[s.len() - 1] <= b);
        lemma_insert_desc_bounded(sort_desc(s.drop_last()), s.last(), b);
    }
}

/// Sum of a run of values.
pub open spec fn sum_vals(s: Seq<i64>) -> int
    decreases s.len(),
{
    if s.len() == 0 {
        0
    } else {
        sum_vals(s.drop_last()) + s.last()
    }
}

/// The closes of the history, in order.
pub open spec fn closes_of(h: Seq<PredictionPoint>) -> Seq<i64> {
    h.map_values(|p: PredictionPoint| p.close)
}

pub open spec fn spec_sma_forecast(now: i64, h: Seq<PredictionPoint>) -> Seq<PredictionPoint> {
    if h.len() == 0 {
        Seq::empty()
    } else {
        let sorted = sort_desc(closes_of(h));
        let k = if sorted.len() < 20 { sorted.len() as int } else { 20 };
        let m = div_tz(sum_vals(sorted.take(k)), k);
        flat_forecast(now, m as i64, 31)
    }
}

impl StockPredictor for SmaPredictor {
    open spec fn spec_method_name(&self) -> Seq<char> {
        "SMA"@
    }

    open spec fn spec_predict(&self, now: i64, history: Seq<PredictionPoint>) -> Seq<PredictionPoint> {
        spec_sma_forecast(now, history)
    }

    fn method_name(&self) -> (r: &str) {
        "SMA"
    }

    fn predict(&self, now: i64, history: &Vec<PredictionPoint>) -> (r: Vec<PredictionPoint>) {
        if history.len() == 0 {
            return Vec::new();
        }
        let mut closes: Vec<i64> = Vec::new();
        let mut i: usize = 0;
        while i < history.len()
            invariant
                0 <= i <= history@.len(),
                closes@ =~= closes_of(history@).subrange(0, i as int),
            decreases history@.len() - i,
        {
            closes.push(history[i].close);
            i += 1;
            proof {
                assert(closes@ =~= closes_of(history@).subrange(0, i as int));
            }
        }
        proof {
            assert(closes@ =~= closes_of(history@));
            assert(forall|t: int| 0 <= t < closes@.len() ==> -(PRICE_LIMIT) <= (#[trigger] closes@[t]) <= PRICE_LIMIT);
            lemma_sort_desc_bounded(closes@, PRICE_LIMIT);
        }
        let sorted = sort_values_desc(&closes);
        let k: usize = if sorted.len() < 20 { sorted.len() } else { 20 };
        let ghost gs = sort_desc(closes_of(history@));
        let mut acc: i128 = 0;
        let mut t: usize = 0;
        while t < k
            invariant
                0 <= t <= k,
                1 <= k <= gs.len(),
                k <= 20,
                sorted@ == gs,
                k == (if gs.len() < 20 { gs.len() as int } else { 20int }),
                forall|q: int| 0 <= q < gs.len() ==> -(PRICE_LIMIT) <= (#[trigger] gs[q]) <= PRICE_LIMIT,
                acc == sum_vals(gs.take(t as int)),
                -(t as int) * (PRICE_LIMIT as int) <= acc <= (t as int) * (PRICE_LIMIT as int),
            decreases k - t,
        {
            proof {
                assert(gs.take(t as int + 1).drop_last() =~= gs.take(t as int));
                assert(gs.take(t as int + 1).last() == gs[t as int]);
            }
            acc = acc + (sorted[t] as i128);
            t += 1;
        }
        let m = div_trunc(acc, k as i128);
        proof {
            crate::num::lemma_div_tz_in_range(acc as int, k as int, PRICE_LIMIT as int);
        }
        emit_flat(now, m as i64, 31)
    }
}

// ---- Linear regression ----

/// Ordinary least squares of close against index; the fitted line is
/// extrapolated for 31 days past the last index. Fewer than two points give
/// an empty forecast.
pub struct LinearRegressionPredictor;

/// Sum of the indices `0..n`.
pub open spec fn sum_idx(n: int) -> int
    decreases n,
{
    if n <= 0 {
        0
    } else {
        sum_idx(n - 1) + (n - 1)
    }
}

/// Sum of the squared indices `0..n`.
pub open spec fn sum_idx_sq(n: int) -> int
    decreases n,
{
    if n <= 0 {
        0
    } else {
        sum_idx_sq(n - 1) + (n - 1) * (n - 1)
    }
}

/// Sum of the first `i` closes.
pub open spec fn sum_closes_pre(h: Seq<PredictionPoint>, i: int) -> int
    decreases i,
{
    if i <= 0 {
        0
    } else {
        sum_closes_pre(h, i - 1) + h[i - 1].close
    }
}

/// Sum of index times close over the first `i` points.
pub open spec fn sum_idx_close_pre(h: Seq<PredictionPoint>, i: int) -> int
    decreases i,
{
    if i <= 0 {
        0
    } else {
        sum_idx_close_pre(h, i - 1) + (i - 1) * h[i - 1].close
    }
}

pub open spec fn spec_linreg_slope(h: Seq<PredictionPoint>) -> int {
    let n = h.len() as int;
    div_tz(n * sum_idx_close_pre(h, n) - sum_idx(n) * sum_closes_pre(h, n),
        n * sum_idx_sq(n) - sum_idx(n) * sum_idx(n))
}

pub open spec fn spec_linreg_intercept(h: Seq<PredictionPoint>) -> int {
    let n = h.len() as int;
    div_tz(sum_closes_pre(h, n) - spec_linreg_slope(h) * sum_idx(n), n)
}

pub open spec fn spec_linreg(now: i64, h: Seq<PredictionPoint>) -> Seq<PredictionPoint> {
    if h.len() < 2 {
        Seq::empty()
    } else {
        let n = h.len() as int;
        let slope = spec_linreg_slope(h);
        let intercept = spec_linreg_intercept(h);
        Seq::new(31, |i: int| PredictionPoint {
            timestamp: (now + DAY_SECONDS * (i + 1)) as i64,
            close: clamp_price(intercept + slope * (n + i)) as i64,
            upper: clamp_price(intercept + slope * (n + i)) as i64,
            lower: clamp_price(intercept + slope * (n + i)) as i64,
        })
    }
}

proof fn lemma_sum_idx_closed(n: int)
    requires
        n >= 0,
    ensures
        2 * sum_idx(n) == n * (n - 1),
        sum_idx(n) >= 0,
    decreases n,
{
    if n > 0 {
        lemma_sum_idx_closed(n - 1);
        assert(2 * sum_idx(n) == n * (n - 1)) by (nonlinear_arith)
            requires
                2 * sum_idx(n - 1) == (n - 1) * ((n - 1) - 1),
                sum_idx(n) == sum_idx(n - 1) + (n - 1),
        ;
    } else {
        assert(n * (n - 1) == 0) by (nonlinear_arith)
            requires
                n == 0,
        ;
    }
}

proof fn lemma_sum_idx_sq_closed(n: int)
    requires
        n >= 0,
    ensures
        6 * sum_idx_sq(n) == n * (n - 1) * (2 * n - 1),
        sum_idx_sq(n) >= 0,
    decreases n,
{
    if n > 0 {
        lemma_sum_idx_sq_closed(n - 1);
        let s2 = sum_idx_sq(n - 1);
        let sq = sum_idx_sq(n);
        assert(sq == s2 + (n - 1) * (n - 1));
        assert(6 * sq == n * (n - 1) * (2 * n - 1)) by (nonlinear_arith)
            requires
                6 * s2 == (n - 1) * ((n - 1) - 1) * (2 * (n - 1) - 1),
                sq == s2 + (n - 1) * (n - 1),
                n >= 1,
        ;
        assert(sq >= 0) by (nonlinear_arith)
            requires
                s2 >= 0,
                sq == s2 + (n - 1) * (n - 1),
        ;
    } else {
        assert(n * (n - 1) * (2 * n - 1) == 0) by (nonlinear_arith)
            requires
                n == 0,
        ;
    }
}

/// The least-squares denominator `n*Sxx - Sx^2` equals `n^2(n-1)(n+1)/12`
/// and is at least 1 for two or more points.
proof fn lemma_den(n: int)
    requires
        n >= 2,
    ensures
        12 * (n * sum_idx_sq(n) - sum_idx(n) * sum_idx(n)) == n * n * (n - 1) * (n + 1),
        n * sum_idx_sq(n) - sum_idx(n) * sum_idx(n) >= 1,
{
    lemma_sum_idx_closed(n);
    lemma_sum_idx_sq_closed(n);
    assert(12 * (n * sum_idx_sq(n) - sum_idx(n) * sum_idx(n)) == n * n * (n - 1) * (n + 1)
        && n * sum_idx_sq(n) - sum_idx(n) * sum_idx(n) >= 1) by (nonlinear_arith)
        requires
            n >= 2,
            2 * sum_idx(n) == n * (n - 1),
            6 * sum_idx_sq(n) == n * (n - 1) * (2 * n - 1),
    ;
}

impl StockPredictor for LinearRegressionPredictor {
    open spec fn spec_method_name(&self) -> Seq<char> {
        "LINEAR_REGRESSION"@
    }

    open spec fn spec_predict(&self, now: i64, history: Seq<PredictionPoint>) -> Seq<PredictionPoint> {
        spec_linreg(now, history)
    }

    fn method_name(&self) -> (r: &str) {
        "LINEAR_REGRESSION"
    }

    fn predict(&self, now: i64, history: &Vec<PredictionPoint>) -> (r: Vec<PredictionPoint>) {
        let n = history.len();
        if n < 2 {
            return Vec::new();
        }
        let ghost gh = history@;
        let ghost gn = n as int;
        let ghost gl = PRICE_LIMIT as int;

        let mut sx: i128 = 0;
        let mut sy: i128 = 0;
        let mut sxy: i128 = 0;
        let mut sx2: i128 = 0;
        let mut i: usize = 0;
        while i < n
            invariant
                0 <= i <= n,
                2 <= n == gh.len(),
                n <= 100_000,
                gh == history@,
                gl == PRICE_LIMIT as int,
                history_ok(gh),
                sx == sum_idx(i as int),
                sy == sum_closes_pre(gh, i as int),
                sxy == sum_idx_close_pre(gh, i as int),
                sx2 == sum_idx_sq(i as int),
                0 <= sx <= (i as int) * 100_000,
                -(i as int) * gl <= sy as int <= (i as int) * gl,
                -(sx as int) * gl <= sxy as int <= (sx as int) * gl,
                0 <= sx2 <= (i as int) * 10_000_000_000,
            decreases n - i,
        {
            let c = history[i].close;
            proof {
                assert(-(PRICE_LIMIT as int) <= gh[i as int].close <= PRICE_LIMIT as int);
                let gi = i as int;
                assert(-(gi * gl) <= gi * (c as int) <= gi * gl) by (nonlinear_arith)
                    requires
                        0 <= gi,
                        -gl <= c as int <= gl,
                ;
                assert(gi * gi <= 10_000_000_000) by (nonlinear_arith)
                    requires
                        0 <= gi <= 100_000,
                ;
                assert(gi * (c as int) <= 100_000 * gl && -(100_000 * gl) <= gi * (c as int))
                    by (nonlinear_arith)
                    requires
                        0 <= gi <= 100_000,
                        -gl <= c as int <= gl,
                        gl >= 1,
                ;
                assert((sx as int + gi) * gl == sx as int * gl + gi * gl);
            }
            sx = sx + (i as i128);
            sy = sy + (c as i128);
            sxy = sxy + (i as i128) * (c as i128);
            sx2 = sx2 + (i as i128) * (i as i128);
            i += 1;
        }
        proof {
            lemma_den(gn);
            lemma_sum_idx_closed(gn);
            assert(gn * (sx2 as int) <= 100_000 * (100_000int * 10_000_000_000)
                && 0 <= gn * (sx2 as int)) by (nonlinear_arith)
                requires
                    2 <= gn <= 100_000,
                    0 <= sx2 as int <= 100_000int * 10_000_000_000,
            ;
            assert(0 <= (sx as int) * (sx as int) <= 10_000_000_000 * 10_000_000_000int)
                by (nonlinear_arith)
                requires
                    0 <= sx as int <= 10_000_000_000,
            ;
        }
        let den: i128 = (n as i128) * sx2 - sx * sx;
        proof {
            assert(den as int == gn * sum_idx_sq(gn) - sum_idx(gn) * sum_idx(gn));
            assert(den >= 1);
            assert(-(gn * ((sx as int) * gl)) <= gn * (sxy as int) <= gn * ((sx as int) * gl))
                by (nonlinear_arith)
                requires
                    2 <= gn,
                    -(sx as int) * gl <= sxy as int <= (sx as int) * gl,
            ;
            assert(-((sx as int) * (gn * gl)) <= (sx as int) * (sy as int)
                <= (sx as int) * (gn * gl)) by (nonlinear_arith)
                requires
                    0 <= sx as int,
                    -(gn * gl) <= sy as int <= gn * gl,
            ;
            assert(gn * ((sx as int) * gl) <= 100_000 * (10_000_000_000 * gl)
                && (sx as int) * (gn * gl) <= 10_000_000_000 * (100_000 * gl))
                by (nonlinear_arith)
                requires
                    2 <= gn <= 100_000,
                    0 <= sx as int <= 10_000_000_000,
                    gl >= 1,
            ;
        }
        let num: i128 = (n as i128) * sxy - sx * sy;
        proof {
            // |num| <= 2 n sx gl, and 24 gl den == 2 gl n^2 (n-1)(n+1) covers it
            assert(crate::num::abs_int(num as int) <= 2 * gn * (sx as int) * gl) by (nonlinear_arith)
                requires
                    2 <= gn,
                    0 <= sx as int,
                    num as int == gn * (sxy as int) - (sx as int) * (sy as int),
                    -(sx as int) * gl <= sxy as int <= (sx as int) * gl,
                    -(gn * gl) <= sy as int <= gn * gl,
            ;
            assert(2 * gn * (sx as int) * gl <= (den as int) * (24 * gl)) by (nonlinear_arith)
                requires
                    2 <= gn,
                    gl >= 1,
                    2 * (sx as int) == gn * (gn - 1),
                    12 * (den as int) == gn * gn * (gn - 1) * (gn + 1),
            ;
        }
        let slope = div_trunc(num, den);
        proof {
            if num as int != 0 {
                vstd::arithmetic::div_mod::lemma_div_pos_is_pos(crate::num::abs_int(num as int), den as int);
                vstd::arithmetic::div_mod::lemma_multiply_divide_le(
                    crate::num::abs_int(num as int), den as int, 24 * gl);
            } else {
                vstd::arithmetic::div_mod::lemma_div_of0(den as int);
            }
            assert(-(24 * gl) <= slope as int <= 24 * gl);
            assert(-((24 * gl) * 10_000_000_000) <= (slope as int) * (sx as int)
                <= (24 * gl) * 10_000_000_000) by (nonlinear_arith)
                requires
                    -(24 * gl) <= slope as int <= 24 * gl,
                    0 <= sx as int <= 10_000_000_000,
                    gl >= 1,
            ;
        }
        let icept_num: i128 = sy - slope * sx;
        let intercept = div_trunc(icept_num, n as i128);
        proof {
            crate::num::lemma_div_tz_bound(icept_num as int, gn);
        }
        let mut out: Vec<PredictionPoint> = Vec::new();
        let mut t: usize = 0;
        while t < 31
            invariant
                0 <= t <= 31,
                2 <= gn == history@.len(),
                gl == PRICE_LIMIT as int,
                0 <= now <= MAX_NOW,
                n == history@.len(),
                n <= 100_000,
                slope as int == spec_linreg_slope(history@),
                intercept as int == spec_linreg_intercept(history@),
                -(24 * gl) <= slope as int <= 24 * gl,
                -((24 * gl) * 10_000_000_000) - gn * gl <= intercept as int
                    <= (24 * gl) * 10_000_000_000 + gn * gl,
                out@.len() == t,
                forall|q: int| 0 <= q < t ==> #[trigger] out@[q] == spec_linreg(now, history@)[q],
            decreases 31 - t,
        {
            let x: i128 = (n as i128) + (t as i128);
            proof {
                assert(-((24 * gl) * 100_031) <= (slope as int) * (x as int)
                    <= (24 * gl) * 100_031) by (nonlinear_arith)
                    requires
                        -(24 * gl) <= slope as int <= 24 * gl,
                        gl >= 1,
                        0 <= x as int <= 100_031,
                ;
            }
            let v: i128 = intercept + slope * x;
            let close = crate::num::clamp_to_price(v);
            let ts = now + DAY_SECONDS * ((t + 1) as i64);
            out.push(PredictionPoint { timestamp: ts, close, upper: close, lower: close });
            t += 1;
        }
        proof {
            assert(out@ =~= spec_linreg(now, history@));
        }
        out
    }
}

} // verus!
