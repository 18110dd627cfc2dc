//! Scalar arithmetic for the tessellator: truncating division, saturation,
//! and an integer square root, each pinned to an exact mathematical spec.
//!
//! The whole library works on integer coordinates in caller-chosen units;
//! wide intermediates are carried in `i128` and results are saturated into a
//! large envelope so that no step can overflow.
use vstd::prelude::*;

verus! {

/// Magnitude envelope for computed points: every derived coordinate is
/// saturated into `[-SAT_BOUND, SAT_BOUND]`.
pub const SAT_BOUND: i64 = 0x8_0000_0000;

/// Absolute value of a mathematical integer.
pub open spec fn abs_int(a: int) -> int {
    if a >= 0 {
        a
    } else {
        -a
    }
}

/// Truncating division (round toward zero), the rounding used throughout the
/// library. For non-negative operands it agrees with Euclidean division.
pub open spec fn tdiv(a: int, b: int) -> int
    recommends
        b != 0,
{
    if (a < 0) <==> (b < 0) {
        abs_int(a) / abs_int(b)
    } else {
        -(abs_int(a) / abs_int(b))
    }
}

/// Clamp into the coordinate envelope `[-SAT_BOUND, SAT_BOUND]`.
pub open spec fn sat(a: int) -> int {
    if a < -SAT_BOUND {
        -SAT_BOUND as int
    } else if a > SAT_BOUND {
        SAT_BOUND as int
    } else {
        a
    }
}

/// The non-negative integer square root: the unique `r >= 0` with
/// `r * r <= n < (r + 1) * (r + 1)`.
pub open spec fn sqrt_floor(n: int) -> int
    recommends
        n >= 0,
{
    choose|r: int| 0 <= r && #[trigger] (r * r) <= n < (r + 1) * (r + 1)
}

/// Magnitudes multiply: `|a b| <= p q` whenever `|a| <= p` and `|b| <= q`.
pub proof fn lemma_mul_bounds(a: int, b: int, p: int, q: int)
    requires
        abs_int(a) <= p,
        abs_int(b) <= q,
    ensures
        abs_int(a * b) <= p * q,
{
    assert(abs_int(a * b) <= p * q) by (nonlinear_arith)
        requires
            abs_int(a) <= p,
            abs_int(b) <= q,
    ;
}

/// Truncating magnitude bound: `|a / b|` never exceeds `|a| / |b|`.
pub proof fn lemma_tdiv_bound(a: int, b: int)
    requires
        b != 0,
    ensures
        abs_int(tdiv(a, b)) == abs_int(a) / abs_int(b),
        abs_int(tdiv(a, b)) * abs_int(b) <= abs_int(a),
{
    let q = abs_int(a) / abs_int(b);
    vstd::arithmetic::div_mod::lemma_fundamental_div_mod(abs_int(a), abs_int(b));
    vstd::arithmetic::div_mod::lemma_mod_division_less_than_divisor(abs_int(a), abs_int(b));
    vstd::arithmetic::div_mod::lemma_div_pos_is_pos(abs_int(a), abs_int(b));
    assert(q * abs_int(b) <= abs_int(a));
}

/// If `|a| <= c * |b|` then `|a / b| <= c`.
pub proof fn lemma_tdiv_quotient_bound(a: int, b: int, c: int)
    requires
        b != 0,
        c >= 0,
        abs_int(a) <= c * abs_int(b),
    ensures
        abs_int(tdiv(a, b)) <= c,
{
    lemma_tdiv_bound(a, b);
    vstd::arithmetic::div_mod::lemma_div_is_ordered(abs_int(a), c * abs_int(b), abs_int(b));
    vstd::arithmetic::div_mod::lemma_div_by_multiple(c, abs_int(b));
}

/// Any bound on the dividend's magnitude bounds the quotient's.
pub proof fn lemma_tdiv_abs_le(a: int, b: int, m: int)
    requires
        b != 0,
        abs_int(a) <= m,
    ensures
        abs_int(tdiv(a, b)) <= m,
{
    lemma_tdiv_bound(a, b);
    vstd::arithmetic::div_mod::lemma_div_nonincreasing(abs_int(a), abs_int(b));
}

/// The square root spec is uniquely determined.
pub proof fn lemma_sqrt_floor_is(n: int, r: int)
    requires
        0 <= r,
        r * r <= n,
        n < (r + 1) * (r + 1),
    ensures
        sqrt_floor(n) == r,
{
    assert(0 <= r && r * r <= n < (r + 1) * (r + 1));
    let s = sqrt_floor(n);
    assert(0 <= s && s * s <= n < (s + 1) * (s + 1));
    if s < r {
        assert((s + 1) * (s + 1) <= r * r) by (nonlinear_arith)
            requires
                0 <= s,
                s < r,
        ;
        assert(false);
    }
    if r < s {
        assert((r + 1) * (r + 1) <= s * s) by (nonlinear_arith)
            requires
                0 <= r,
                r < s,
        ;
        assert(false);
    }
}

/// A number is bounded by the square root of any bound on its square.
pub proof fn lemma_square_bounds_root(x: int, n: int)
    requires
        n >= 0,
        x * x <= n,
    ensures
        abs_int(x) <= sqrt_floor(n),
{
    let s = sqrt_floor(n);
    lemma_sqrt_floor_exists(n);
    assert(0 <= s && s * s <= n < (s + 1) * (s + 1));
    if abs_int(x) > s {
        assert((s + 1) * (s + 1) <= abs_int(x) * abs_int(x)) by (nonlinear_arith)
            requires
                0 <= s,
                s < abs_int(x),
        ;
        assert(x * x == abs_int(x) * abs_int(x)) by (nonlinear_arith);
        assert(false);
    }
}

/// Some value satisfies the square-root characterization, so `choose` picks it.
pub proof fn lemma_sqrt_floor_exists(n: int)
    requires
        n >= 0,
    ensures
        sqrt_floor(n) >= 0,
        sqrt_floor(n) * sqrt_floor(n) <= n,
        n < (sqrt_floor(n) + 1) * (sqrt_floor(n) + 1),
    decreases n,
{
    if n == 0 {
        let z = 0int;
        assert(z * z == 0 && (z + 1) * (z + 1) == 1) by (nonlinear_arith)
            requires
                z == 0,
        ;
        lemma_sqrt_floor_is(n, z);
    } else {
        lemma_sqrt_floor_exists(n - 1);
        let s = sqrt_floor(n - 1);
        if n < (s + 1) * (s + 1) {
            lemma_sqrt_floor_is(n, s);
        } else {
            assert(n == (s + 1) * (s + 1));
            assert((s + 1) * (s + 1) < (s + 2) * (s + 2)) by (nonlinear_arith)
                requires
                    s >= 0,
            ;
            lemma_sqrt_floor_is(n, s + 1);
        }
    }
}

/// Truncating division on wide integers, carried out on magnitudes so the
/// rounding direction is explicit.
pub fn divt(a: i128, b: i128) -> (r: i128)
    requires
        b != 0,
        a > i128::MIN,
        b > i128::MIN,
    ensures
        r == tdiv(a as int, b as int),
{
    let ua: u128 = if a < 0 {
        (-a) as u128
    } else {
        a as u128
    };
    let ub: u128 = if b < 0 {
        (-b) as u128
    } else {
        b as u128
    };
    let q: u128 = ua / ub;
    proof {
        vstd::arithmetic::div_mod::lemma_div_is_ordered(ua as int, u128::MAX as int, ub as int);
        vstd::arithmetic::div_mod::lemma_div_nonincreasing(ua as int, ub as int);
    }
    if (a < 0) != (b < 0) {
        -(q as i128)
    } else {
        q as i128
    }
}

/// Saturate a wide value into the `i64` coordinate envelope.
pub fn sat_i64(a: i128) -> (r: i64)
    ensures
        r == sat(a as int),
{
    if a < -SAT_BOUND as i128 {
        -SAT_BOUND
    } else if a > SAT_BOUND as i128 {
        SAT_BOUND
    } else {
        a as i64
    }
}

/// Integer square root of a wide non-negative value by bisection.
pub fn isqrt(n: u128) -> (r: u128)
    requires
        n < 0x4000_0000_0000_0000_0000_0000_0000_0000,
    ensures
        r == sqrt_floor(n as int),
        r < 0x8000_0000_0000_0000,
{
    let mut lo: u128 = 0;
    let mut hi: u128 = 0x8000_0000_0000_0000;
    proof {
        assert((0x8000_0000_0000_0000 as int) * (0x8000_0000_0000_0000 as int)
            == 0x4000_0000_0000_0000_0000_0000_0000_0000) by (nonlinear_arith);
    }
    while lo + 1 < hi
        invariant
            0 <= lo < hi <= 0x8000_0000_0000_0000,
            lo * lo <= n,
            n < hi * hi,
        decreases hi - lo,
    {
        let mid: u128 = lo + (hi - lo) / 2;
        proof {
            assert(lo < mid < hi);
            assert(mid * mid < 0x4000_0000_0000_0000_0000_0000_0000_0000 * 2) by (nonlinear_arith)
                requires
                    mid < 0x8000_0000_0000_0000,
            ;
        }
        if mid * mid <= n {
            lo = mid;
        } else {
            hi = mid;
        }
    }
    proof {
        lemma_sqrt_floor_is(n as int, lo as int);
    }
    lo
}

} // verus!
