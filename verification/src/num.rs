use vstd::prelude::*;

verus! {

/// Quotient of `a` by `b`, rounded toward zero, as the machine division of
/// the indicator arithmetic performs it.
pub open spec fn div_tz(a: int, b: int) -> int
    recommends
        b != 0,
{
    if (a >= 0) == (b >= 0) {
        abs_int(a) / abs_int(b)
    } else {
        -(abs_int(a) / abs_int(b))
    }
}

pub open spec fn abs_int(a: int) -> int {
    if a >= 0 {
        a
    } else {
        -a
    }
}

/// Largest `r >= 0` with `r * r <= x` (0 for negative `x`).
pub open spec fn sqrt_floor(x: int) -> int
    decreases x,
{
    if x <= 0 {
        0
    } else {
        let r = sqrt_floor(x - 1);
        if (r + 1) * (r + 1) <= x {
            r + 1
        } else {
            r
        }
    }
}

/// `sqrt_floor` is characterised by its two bounding squares.
pub proof fn lemma_sqrt_floor_bounds(x: int)
    requires
        x >= 0,
    ensures
        sqrt_floor(x) >= 0,
        sqrt_floor(x) * sqrt_floor(x) <= x,
        (sqrt_floor(x) + 1) * (sqrt_floor(x) + 1) > x,
    decreases x,
{
    if x > 0 {
        lemma_sqrt_floor_bounds(x - 1);
        let r = sqrt_floor(x - 1);
        if (r + 1) * (r + 1) <= x {
            assert((r + 2) * (r + 2) > x) by (nonlinear_arith)
                requires
                    r >= 0,
                    (r + 1) * (r + 1) > x - 1,
            ;
        }
    }
}

/// Any `r` bracketed by the two squares is `sqrt_floor(x)`.
pub proof fn lemma_sqrt_floor_unique(x: int, r: int)
    requires
        x >= 0,
        r >= 0,
        r * r <= x,
        (r + 1) * (r + 1) > x,
    ensures
        r == sqrt_floor(x),
{
    lemma_sqrt_floor_bounds(x);
    let s = sqrt_floor(x);
    assert(r == s) by (nonlinear_arith)
        requires
            r >= 0,
            s >= 0,
            r * r <= x,
            (r + 1) * (r + 1) > x,
            s * s <= x,
            (s + 1) * (s + 1) > x,
    ;
}

/// Clamps an intermediate value into the representable price range.
pub open spec fn clamp_price(x: int) -> int {
    if x > crate::time_series::PRICE_LIMIT as int {
        crate::time_series::PRICE_LIMIT as int
    } else if x < -(crate::time_series::PRICE_LIMIT as int) {
        -(crate::time_series::PRICE_LIMIT as int)
    } else {
        x
    }
}

/// Division of `i128` values rounded toward zero.
pub fn div_trunc(a: i128, b: i128) -> (r: i128)
    requires
        b != 0,
        !(a == i128::MIN && b == -1),
    ensures
        r == div_tz(a as int, b as int),
{
    proof {
        let x = a as int;
        let d = b as int;
        if x != 0 {
            vstd::arithmetic::div_mod::lemma_div_nonincreasing(abs_int(x), abs_int(d));
            vstd::arithmetic::div_mod::lemma_div_pos_is_pos(abs_int(x), abs_int(d));
        } else {
            vstd::arithmetic::div_mod::lemma_div_of0(abs_int(d));
        }
        if x == i128::MIN as int && d < -1 {
            vstd::arithmetic::div_mod::lemma_div_is_ordered_by_denominator(abs_int(x), 2, abs_int(d));
        }
        if x > 0 && d < 0 {
            assert(x / (d * -1) == abs_int(x) / abs_int(d));
        }
        if x < 0 && d > 0 {
            assert((x * -1) / d == abs_int(x) / abs_int(d));
        }
        if x < 0 && d < 0 {
            assert((x * -1) / (d * -1) == abs_int(x) / abs_int(d));
        }
    }
    match a.checked_div(b) {
        Some(q) => q,
        None => 0,
    }
}

/// Floor of the square root of a non-negative `i128` value.
pub fn isqrt(x: i128) -> (r: i128)
    requires
        x >= 0,
    ensures
        r == sqrt_floor(x as int),
        r >= 0,
        r * r <= x,
{
    let mut lo: u128 = 0;
    let mut hi: u128 = 0x1_0000_0000_0000_0000;
    proof {
        assert((hi as int) * (hi as int) > x) by (nonlinear_arith)
            requires
                hi == 0x1_0000_0000_0000_0000u128,
                x <= i128::MAX as int,
        ;
    }
    while lo + 1 < hi
        invariant
            0 <= x,
            lo < hi,
            hi <= 0x1_0000_0000_0000_0000u128,
            (lo as int) * (lo as int) <= x as int,
            (hi as int) * (hi as int) > x as int,
        decreases hi - lo,
    {
        let mid: u128 = lo + (hi - lo) / 2;
        proof {
            assert(lo < mid < hi);
            assert((mid as int) * (mid as int) <= 0xffff_ffff_ffff_ffff_ffff_ffff_ffff_ffffu128 as int)
                by (nonlinear_arith)
                requires
                    mid < 0x1_0000_0000_0000_0000u128,
            ;
        }
        if mid * mid <= x as u128 {
            lo = mid;
        } else {
            hi = mid;
        }
    }
    proof {
        assert((lo as int + 1) * (lo as int + 1) > x as int);
        lemma_sqrt_floor_unique(x as int, lo as int);
        assert((lo as int) * (lo as int) <= x as int);
    }
    let r = lo as i128;
    proof {
        assert(r * r <= x) by (nonlinear_arith)
            requires
                (r as int) * (r as int) <= x as int,
                r == lo as i128,
                lo < 0x1_0000_0000_0000_0000u128,
        ;
    }
    r
}

/// `|div_tz(a, b)| <= |a|`.
pub proof fn lemma_div_tz_bound(a: int, b: int)
    requires
        b != 0,
    ensures
        -abs_int(a) <= div_tz(a, b) <= abs_int(a),
{
    let ua = abs_int(a);
    let ub = abs_int(b);
    if a == 0 {
        vstd::arithmetic::div_mod::lemma_div_of0(ub);
    } else {
        vstd::arithmetic::div_mod::lemma_div_nonincreasing(ua, ub);
        vstd::arithmetic::div_mod::lemma_div_pos_is_pos(ua, ub);
    }
}

/// If `|a| <= d * bound` then `|div_tz(a, d)| <= bound`.
pub proof fn lemma_div_tz_in_range(a: int, d: int, bound: int)
    requires
        d >= 1,
        bound >= 0,
        -d * bound <= a <= d * bound,
    ensures
        -bound <= div_tz(a, d) <= bound,
{
    let ua = abs_int(a);
    assert(ua <= d * bound) by (nonlinear_arith)
        requires
            d >= 1,
            bound >= 0,
            -d * bound <= a <= d * bound,
            ua == abs_int(a),
    ;
    if a == 0 {
        vstd::arithmetic::div_mod::lemma_div_of0(d);
    } else {
        vstd::arithmetic::div_mod::lemma_div_pos_is_pos(ua, d);
        vstd::arithmetic::div_mod::lemma_multiply_divide_le(ua, d, bound);
    }
}

/// Exact division under truncation toward zero: `(d * x) / d == x` for
/// positive `d`.
pub proof fn lemma_div_tz_exact(x: int, d: int)
    requires
        d >= 1,
    ensures
        div_tz(d * x, d) == x,
{
    if x >= 0 {
        vstd::arithmetic::div_mod::lemma_div_multiples_vanish(x, d);
        assert(d * x >= 0) by (nonlinear_arith)
            requires
                d >= 1,
                x >= 0,
        ;
        assert(abs_int(d * x) == d * x);
    } else {
        vstd::arithmetic::div_mod::lemma_div_multiples_vanish(-x, d);
        assert(d * x < 0 && -(d * x) == d * (-x)) by (nonlinear_arith)
            requires
                d >= 1,
                x < 0,
        ;
        assert(abs_int(d * x) == d * (-x));
        assert(div_tz(d * x, d) == -((d * (-x)) / d));
    }
}

/// Division of a price by 100, rounded toward zero.
pub fn div_trunc_price(a: i64) -> (r: i64)
    ensures
        r == div_tz(a as int, 100),
{
    proof {
        lemma_div_tz_bound(a as int, 100);
    }
    let q = div_trunc(a as i128, 100);
    q as i64
}

/// Clamp of an `i128` intermediate into the `i64` price range.
pub fn clamp_to_price(x: i128) -> (r: i64)
    ensures
        r as int == clamp_price(x as int),
{
    if x > crate::time_series::PRICE_LIMIT as i128 {
        crate::time_series::PRICE_LIMIT
    } else if x < -(crate::time_series::PRICE_LIMIT as i128) {
        -crate::time_series::PRICE_LIMIT
    } else {
        x as i64
    }
}

} // verus!
