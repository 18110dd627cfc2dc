//! Angles and trigonometry over integers.
//!
//! An angle is measured in binary units with `HALF_TURN == 32768` standing
//! for a half turn, so a full turn is `65536` units. Trigonometric values are
//! fixed-point with `FIXED_ONE == 32768` standing for one. The sine is a
//! rational approximation (exact spec below); the arctangent is an octant
//! reduction over a quadratic approximation. Every function's contract pins
//! the exact value computed.
use vstd::prelude::*;
use crate::num::abs_int;

verus! {

/// Half a turn in angle units (the analogue of pi).
pub const HALF_TURN: i64 = 32768;

/// A full turn in angle units.
pub const FULL_TURN: i64 = 65536;

/// A quarter turn in angle units.
pub const QUARTER_TURN: i64 = 16384;

/// An eighth of a turn in angle units.
pub const EIGHTH_TURN: i64 = 8192;

/// Fixed-point scale: this value stands for one.
pub const FIXED_ONE: i64 = 32768;

/// Correction coefficient of the arctangent approximation, in angle units.
pub const ATAN_ADJUST: i64 = 2847;

/// An angle reduced to `[0, FULL_TURN)`.
pub open spec fn wrap_angle_spec(a: int) -> int {
    a % (FULL_TURN as int)
}

/// Sine on the first half wave, `t` in `[0, HALF_TURN]`, scaled by
/// `FIXED_ONE`: `16 t (H - t) / (5 H^2 - 4 t (H - t))` with `H = HALF_TURN`.
pub open spec fn sin_half_wave(t: int) -> int {
    (16 * t * (HALF_TURN - t) * FIXED_ONE) as int / (
    5 * HALF_TURN * HALF_TURN - 4 * (t * (HALF_TURN - t))) as int
}

/// Sine of an angle in units, scaled by `FIXED_ONE`.
pub open spec fn sin_spec(a: int) -> int {
    let w = wrap_angle_spec(a);
    if w < HALF_TURN {
        sin_half_wave(w)
    } else {
        -sin_half_wave(w - HALF_TURN)
    }
}

/// Cosine of an angle in units, scaled by `FIXED_ONE`.
pub open spec fn cos_spec(a: int) -> int {
    sin_spec(a + QUARTER_TURN)
}

/// Arctangent of `n / d` (with `0 <= n <= d`), in angle units: with
/// `z = n FIXED_ONE / d`, the angle is `E z + C z (1 - z)` for
/// `E = EIGHTH_TURN` and `C = ATAN_ADJUST`.
pub open spec fn atan_frac_spec(n: int, d: int) -> int {
    let z = (n * FIXED_ONE) as int / d;
    (EIGHTH_TURN * z + (ATAN_ADJUST * z * (FIXED_ONE - z)) as int / FIXED_ONE as int) as int
        / FIXED_ONE as int
}

/// Signed angle of the vector `(x, y)` in `[-HALF_TURN, HALF_TURN]`, by
/// octant reduction to `atan_frac_spec`.
pub open spec fn atan2_spec(y: int, x: int) -> int {
    let base = if abs_int(y) <= abs_int(x) {
        atan_frac_spec(abs_int(y), abs_int(x))
    } else {
        QUARTER_TURN - atan_frac_spec(abs_int(x), abs_int(y))
    };
    if x >= 0 && y >= 0 {
        base
    } else if x < 0 && y >= 0 {
        HALF_TURN - base
    } else if x < 0 {
        base - HALF_TURN
    } else {
        -base
    }
}

/// Reduce an angle into `[0, FULL_TURN)`.
pub fn wrap_angle(a: i64) -> (r: i64)
    requires
        a > i64::MIN,
    ensures
        r == wrap_angle_spec(a as int),
        0 <= r < FULL_TURN,
{
    if a >= 0 {
        a % 65536
    } else {
        let k = (-a) % 65536;
        proof {
            let x = -a as int;
            let q = x / 65536;
            vstd::arithmetic::div_mod::lemma_fundamental_div_mod(x, 65536);
            vstd::arithmetic::div_mod::lemma_mod_division_less_than_divisor(x, 65536);
            if k == 0 {
                vstd::arithmetic::div_mod::lemma_fundamental_div_mod_converse_mod(
                    a as int,
                    65536,
                    -q,
                    0,
                );
            } else {
                vstd::arithmetic::div_mod::lemma_fundamental_div_mod_converse_mod(
                    a as int,
                    65536,
                    -q - 1,
                    65536 - k as int,
                );
            }
        }
        if k == 0 {
            0
        } else {
            65536 - k
        }
    }
}

/// The first half wave of the sine stays within `[0, FIXED_ONE]`.
pub proof fn lemma_sin_half_wave_bounds(t: int)
    requires
        0 <= t <= HALF_TURN,
    ensures
        0 <= sin_half_wave(t) <= FIXED_ONE,
{
    let h = HALF_TURN as int;
    let one = FIXED_ONE as int;
    let p = t * (h - t);
    assert(0 <= p && 4 * p <= h * h) by (nonlinear_arith)
        requires
            0 <= t <= h,
            p == t * (h - t),
    ;
    let num = 16 * t * (h - t) * one;
    let den = 5 * h * h - 4 * p;
    assert(num == 16 * p * one) by (nonlinear_arith)
        requires
            num == 16 * t * (h - t) * one,
            p == t * (h - t),
    ;
    assert(den >= 4 * h * h) by {
        assert(4 * p <= h * h);
    };
    assert(num >= 0) by (nonlinear_arith)
        requires
            p >= 0,
            one > 0,
            num == 16 * p * one,
    ;
    vstd::arithmetic::div_mod::lemma_div_pos_is_pos(num, den);
    assert(num <= one * den) by (nonlinear_arith)
        requires
            den == 5 * h * h - 4 * p,
            num == 16 * p * one,
            4 * p <= h * h,
            p >= 0,
            one == 32768,
            h == 32768,
    ;
    vstd::arithmetic::div_mod::lemma_div_is_ordered(num, one * den, den);
    vstd::arithmetic::div_mod::lemma_div_by_multiple(one, den);
}

/// Sine of an angle in units; the result is `sin_spec` exactly and lies in
/// `[-FIXED_ONE, FIXED_ONE]`.
pub fn sin_units(a: i64) -> (r: i64)
    requires
        a > i64::MIN,
    ensures
        r == sin_spec(a as int),
        -FIXED_ONE <= r <= FIXED_ONE,
{
    let w = wrap_angle(a);
    let (t, neg) = if w < HALF_TURN {
        (w, false)
    } else {
        (w - HALF_TURN, true)
    };
    let t_w: i128 = t as i128;
    proof {
        assert(0 <= t_w * (32768 - t_w) && 4 * (t_w * (32768 - t_w)) <= 32768 * 32768)
            by (nonlinear_arith)
            requires
                0 <= t_w <= 32768,
        ;
    }
    let p1: i128 = t_w * (32768 - t_w);
    let num: i128 = 16 * p1 * 32768;
    let den: i128 = 5 * 32768 * 32768 - 4 * p1;
    proof {
        assert(num == 16 * t_w * (32768 - t_w) * 32768) by (nonlinear_arith)
            requires
                num == 16 * (t_w * (32768 - t_w)) * 32768,
                p1 == t_w * (32768 - t_w),
        ;
        lemma_sin_half_wave_bounds(t as int);
    }
    let v: i128 = num / den;
    let v64: i64 = v as i64;
    if neg {
        -v64
    } else {
        v64
    }
}

/// Cosine of an angle in units; the result is `cos_spec` exactly and lies in
/// `[-FIXED_ONE, FIXED_ONE]`.
pub fn cos_units(a: i64) -> (r: i64)
    requires
        a > i64::MIN,
        a + QUARTER_TURN <= i64::MAX,
    ensures
        r == cos_spec(a as int),
        -FIXED_ONE <= r <= FIXED_ONE,
{
    sin_units(a + QUARTER_TURN)
}

/// The arctangent approximation stays within `[0, EIGHTH_TURN]`.
pub proof fn lemma_atan_frac_bounds(n: int, d: int)
    requires
        0 <= n <= d,
        1 <= d,
    ensures
        0 <= atan_frac_spec(n, d) <= EIGHTH_TURN,
{
    let one = FIXED_ONE as int;
    let e = EIGHTH_TURN as int;
    let c = ATAN_ADJUST as int;
    let z = (n * one) / d;
    assert(0 <= n * one <= d * one) by (nonlinear_arith)
        requires
            0 <= n <= d,
            one > 0,
    ;
    vstd::arithmetic::div_mod::lemma_div_pos_is_pos(n * one, d);
    vstd::arithmetic::div_mod::lemma_div_is_ordered(n * one, d * one, d);
    vstd::arithmetic::div_mod::lemma_div_by_multiple(one, d);
    assert(z <= one);
    let corr = (c * z * (one - z)) / one;
    assert(0 <= c * z * (one - z) <= (c * (one - z)) * one) by (nonlinear_arith)
        requires
            0 <= z <= one,
            c > 0,
    ;
    vstd::arithmetic::div_mod::lemma_div_pos_is_pos(c * z * (one - z), one);
    vstd::arithmetic::div_mod::lemma_div_is_ordered(c * z * (one - z), (c * (one - z)) * one, one);
    vstd::arithmetic::div_mod::lemma_div_by_multiple(c * (one - z), one);
    assert(corr <= c * (one - z));
    let total = e * z + corr;
    assert(0 <= total <= e * one) by (nonlinear_arith)
        requires
            0 <= z <= one,
            0 <= corr <= c * (one - z),
            e == 8192,
            c == 2847,
            one == 32768,
            total == e * z + corr,
    ;
    vstd::arithmetic::div_mod::lemma_div_pos_is_pos(total, one);
    vstd::arithmetic::div_mod::lemma_div_is_ordered(total, e * one, one);
    vstd::arithmetic::div_mod::lemma_div_by_multiple(e, one);
}

/// Arctangent of `n / d` with `0 <= n <= d`, in angle units.
pub fn atan_frac(n: i128, d: i128) -> (r: i64)
    requires
        0 <= n <= d,
        1 <= d < 0x1000_0000_0000_0000_0000_0000_0000,
    ensures
        r == atan_frac_spec(n as int, d as int),
        0 <= r <= EIGHTH_TURN,
{
    let z: i128 = (n * 32768) / d;
    proof {
        assert(0 <= n * 32768 <= d * 32768) by (nonlinear_arith)
            requires
                0 <= n <= d,
        ;
        vstd::arithmetic::div_mod::lemma_div_pos_is_pos(n as int * 32768, d as int);
        vstd::arithmetic::div_mod::lemma_div_is_ordered(n as int * 32768, d as int * 32768, d as int);
        vstd::arithmetic::div_mod::lemma_div_by_multiple(32768, d as int);
        lemma_atan_frac_bounds(n as int, d as int);
    }
    let total: i128 = 8192 * z + (2847 * z * (32768 - z)) / 32768;
    let r: i128 = total / 32768;
    r as i64
}

/// Signed angle of the vector `(x, y)`, in `[-HALF_TURN, HALF_TURN]`.
pub fn atan2_units(y: i128, x: i128) -> (r: i64)
    requires
        !(x == 0 && y == 0),
        -0x1000_0000_0000_0000_0000_0000_0000 < x < 0x1000_0000_0000_0000_0000_0000_0000,
        -0x1000_0000_0000_0000_0000_0000_0000 < y < 0x1000_0000_0000_0000_0000_0000_0000,
    ensures
        r == atan2_spec(y as int, x as int),
        -HALF_TURN <= r <= HALF_TURN,
{
    let ax: i128 = if x < 0 {
        -x
    } else {
        x
    };
    let ay: i128 = if y < 0 {
        -y
    } else {
        y
    };
    let base: i64 = if ay <= ax {
        atan_frac(ay, ax)
    } else {
        16384 - atan_frac(ax, ay)
    };
    if x >= 0 && y >= 0 {
        base
    } else if x < 0 && y >= 0 {
        32768 - base
    } else if x < 0 {
        base - 32768
    } else {
        -base
    }
}

} // verus!
