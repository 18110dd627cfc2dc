//! 2D vector primitives of the tessellator: the orientation test, line-line
//! intersection, side-offset segments and point projection, all on integer
//! coordinates with exact contracts.
use vstd::prelude::*;
use crate::num::abs_int;
use crate::num::tdiv;
use crate::num::sat;
use crate::num::sqrt_floor;
use crate::num::divt;
use crate::num::sat_i64;
use crate::num::isqrt;
use crate::num::lemma_mul_bounds;
use crate::num::lemma_tdiv_quotient_bound;
use crate::num::lemma_tdiv_abs_le;
use crate::num::lemma_square_bounds_root;
use crate::num::lemma_sqrt_floor_exists;
use crate::trig::FIXED_ONE;
use crate::trig::sin_spec;
use crate::trig::cos_spec;
use crate::trig::atan2_spec;
use crate::trig::sin_units;
use crate::trig::cos_units;
use crate::trig::atan2_units;
use crate::trig::HALF_TURN;

verus! {

/// Bound on the coordinates the geometric primitives accept; computed points
/// are saturated well inside it, so their results can feed further primitives.
pub const PT_LIMIT: i64 = 0x10_0000_0000;

/// A 2D point or direction in integer units.
#[derive(Clone, Copy, PartialEq, Eq, Structural, Debug)]
pub struct Vec2 {
    pub x: i64,
    pub y: i64,
}

/// Which way three ordered points turn at the middle point.
#[derive(Clone, Copy, PartialEq, Eq, Structural, Debug)]
pub enum Orientation {
    Left,
    Right,
    Straight,
}

impl Vec2 {
    /// Build a point from its coordinates.
    pub fn new(x: i64, y: i64) -> (r: Vec2)
        ensures
            r == (Vec2 { x, y }),
    {
        Vec2 { x, y }
    }
}

/// Both coordinates within the primitives' input envelope.
pub open spec fn pt_ok(v: Vec2) -> bool {
    abs_int(v.x as int) <= PT_LIMIT && abs_int(v.y as int) <= PT_LIMIT
}

/// The 2D cross product (perpendicular dot product) of two vectors.
pub open spec fn cross_of(a: Vec2, b: Vec2) -> int {
    a.x * b.y - a.y * b.x
}

/// The dot product of two vectors.
pub open spec fn dot_of(a: Vec2, b: Vec2) -> int {
    a.x * b.x + a.y * b.y
}

/// The turn direction at `p2`: the sign of the cross product of `p2 - p1`
/// and `p3 - p2`.
pub open spec fn orientation_of(p1: Vec2, p2: Vec2, p3: Vec2) -> Orientation {
    let det = (p2.x - p1.x) * (p3.y - p2.y) - (p2.y - p1.y) * (p3.x - p2.x);
    if det > 0 {
        Orientation::Left
    } else if det < 0 {
        Orientation::Right
    } else {
        Orientation::Straight
    }
}

/// Where the line through `p1` along `d1` meets the line through `p2` along
/// `d2`: none when the directions are parallel (zero cross product), else
/// `p1 + d1 (delta x d2) / (d1 x d2)` with truncating division and each
/// coordinate saturated into the envelope.
pub open spec fn intersection_spec(p1: Vec2, d1: Vec2, p2: Vec2, d2: Vec2) -> Option<Vec2> {
    let det = cross_of(d1, d2);
    if det == 0 {
        Option::None
    } else {
        let num = (p2.x - p1.x) * d2.y - (p2.y - p1.y) * d2.x;
        Option::Some(
            Vec2 {
                x: sat(p1.x + tdiv(num * d1.x, det)) as i64,
                y: sat(p1.y + tdiv(num * d1.y, det)) as i64,
            },
        )
    }
}

/// The segment `p1 -> p2` shifted by `width` along its left-hand
/// perpendicular: each endpoint moves by `perp(p2 - p1) * width / |p2 - p1|`
/// with the length rounded down and the quotients truncated toward zero.
pub open spec fn left_side_spec(p1: Vec2, p2: Vec2, width: int) -> (Vec2, Vec2) {
    let dx = p2.x - p1.x;
    let dy = p2.y - p1.y;
    let len = sqrt_floor(dx * dx + dy * dy);
    let ox = tdiv(-dy * width, len);
    let oy = tdiv(dx * width, len);
    (
        Vec2 { x: (p1.x + ox) as i64, y: (p1.y + oy) as i64 },
        Vec2 { x: (p2.x + ox) as i64, y: (p2.y + oy) as i64 },
    )
}

/// The right-hand offset segment: the left-hand offset of the reversed
/// segment, with its endpoints swapped back, so both sides are exact mirror
/// images of one another.
pub open spec fn right_side_spec(p1: Vec2, p2: Vec2, width: int) -> (Vec2, Vec2) {
    let rev = left_side_spec(p2, p1, width);
    (rev.1, rev.0)
}

/// The orthogonal projection of `p` onto the line through `a` and `b`:
/// `a + v (w . v) / (v . v)` for `v = b - a`, `w = p - a`, with truncating
/// division and saturation.
pub open spec fn project_spec(p: Vec2, a: Vec2, b: Vec2) -> Vec2 {
    let vx = b.x - a.x;
    let vy = b.y - a.y;
    let num = (p.x - a.x) * vx + (p.y - a.y) * vy;
    let den = vx * vx + vy * vy;
    Vec2 { x: sat(a.x + tdiv(num * vx, den)) as i64, y: sat(a.y + tdiv(num * vy, den)) as i64 }
}

/// Classify the turn at `p2` in the ordered triple `p1, p2, p3`.
pub fn orientation_test(p1: Vec2, p2: Vec2, p3: Vec2) -> (r: Orientation)
    requires
        pt_ok(p1),
        pt_ok(p2),
        pt_ok(p3),
    ensures
        r == orientation_of(p1, p2, p3),
{
    let v1x: i128 = p2.x as i128 - p1.x as i128;
    let v1y: i128 = p2.y as i128 - p1.y as i128;
    let v2x: i128 = p3.x as i128 - p2.x as i128;
    let v2y: i128 = p3.y as i128 - p2.y as i128;
    proof {
        lemma_mul_bounds(v1x as int, v2y as int, 2 * PT_LIMIT as int, 2 * PT_LIMIT as int);
        lemma_mul_bounds(v1y as int, v2x as int, 2 * PT_LIMIT as int, 2 * PT_LIMIT as int);
    }
    let det: i128 = v1x * v2y - v1y * v2x;
    if det > 0 {
        Orientation::Left
    } else if det < 0 {
        Orientation::Right
    } else {
        Orientation::Straight
    }
}

/// Reversing the order of a corner triple flips `Left` and `Right` and keeps
/// `Straight`; reversing twice restores the original classification.
pub proof fn lemma_orientation_reversal(p1: Vec2, p2: Vec2, p3: Vec2)
    ensures
        orientation_of(p1, p2, p3) == Orientation::Left <==> orientation_of(p3, p2, p1)
            == Orientation::Right,
        orientation_of(p1, p2, p3) == Orientation::Right <==> orientation_of(p3, p2, p1)
            == Orientation::Left,
        orientation_of(p1, p2, p3) == Orientation::Straight <==> orientation_of(p3, p2, p1)
            == Orientation::Straight,
{
    let det_fwd = (p2.x - p1.x) * (p3.y - p2.y) - (p2.y - p1.y) * (p3.x - p2.x);
    let det_rev = (p2.x - p3.x) * (p1.y - p2.y) - (p2.y - p3.y) * (p1.x - p2.x);
    assert(det_rev == -det_fwd) by (nonlinear_arith)
        requires
            det_fwd == (p2.x - p1.x) * (p3.y - p2.y) - (p2.y - p1.y) * (p3.x - p2.x),
            det_rev == (p2.x - p3.x) * (p1.y - p2.y) - (p2.y - p3.y) * (p1.x - p2.x),
    ;
}

/// A triple that turns left or right has no degenerate segment.
pub proof fn lemma_orientation_nondegenerate(p1: Vec2, p2: Vec2, p3: Vec2)
    requires
        orientation_of(p1, p2, p3) != Orientation::Straight,
    ensures
        p1 != p2,
        p2 != p3,
{
    let det = (p2.x - p1.x) * (p3.y - p2.y) - (p2.y - p1.y) * (p3.x - p2.x);
    if p1 == p2 {
        assert(det == 0) by (nonlinear_arith)
            requires
                det == (p2.x - p1.x) * (p3.y - p2.y) - (p2.y - p1.y) * (p3.x - p2.x),
                p2.x == p1.x,
                p2.y == p1.y,
        ;
    }
    if p2 == p3 {
        assert(det == 0) by (nonlinear_arith)
            requires
                det == (p2.x - p1.x) * (p3.y - p2.y) - (p2.y - p1.y) * (p3.x - p2.x),
                p3.x == p2.x,
                p3.y == p2.y,
        ;
    }
}

/// A line never meets itself in a point: intersecting a line with itself
/// reports no intersection, as for any parallel pair.
pub proof fn lemma_self_intersection_none(p: Vec2, d: Vec2)
    ensures
        intersection_spec(p, d, p, d) is None,
{
    assert(cross_of(d, d) == 0) by (nonlinear_arith)
        requires
            cross_of(d, d) == d.x * d.y - d.y * d.x,
    ;
}

/// Find where two point-and-direction lines meet, if they are not parallel.
pub fn intersection_point(p1: Vec2, d1: Vec2, p2: Vec2, d2: Vec2) -> (r: Option<Vec2>)
    requires
        pt_ok(p1),
        pt_ok(d1),
        pt_ok(p2),
        pt_ok(d2),
    ensures
        r == intersection_spec(p1, d1, p2, d2),
{
    let d1x: i128 = d1.x as i128;
    let d1y: i128 = d1.y as i128;
    let d2x: i128 = d2.x as i128;
    let d2y: i128 = d2.y as i128;
    proof {
        lemma_mul_bounds(d1x as int, d2y as int, PT_LIMIT as int, PT_LIMIT as int);
        lemma_mul_bounds(d1y as int, d2x as int, PT_LIMIT as int, PT_LIMIT as int);
    }
    let det: i128 = d1x * d2y - d1y * d2x;
    if det == 0 {
        return Option::None;
    }
    let dx: i128 = p2.x as i128 - p1.x as i128;
    let dy: i128 = p2.y as i128 - p1.y as i128;
    proof {
        lemma_mul_bounds(dx as int, d2y as int, 2 * PT_LIMIT as int, PT_LIMIT as int);
        lemma_mul_bounds(dy as int, d2x as int, 2 * PT_LIMIT as int, PT_LIMIT as int);
    }
    let num: i128 = dx * d2y - dy * d2x;
    proof {
        lemma_mul_bounds(num as int, d1x as int, 4 * PT_LIMIT as int * PT_LIMIT as int, PT_LIMIT as int);
        lemma_mul_bounds(num as int, d1y as int, 4 * PT_LIMIT as int * PT_LIMIT as int, PT_LIMIT as int);
    }
    let qx: i128 = divt(num * d1x, det);
    let qy: i128 = divt(num * d1y, det);
    proof {
        lemma_tdiv_abs_le(
            num as int * d1x as int,
            det as int,
            4 * PT_LIMIT as int * PT_LIMIT as int * PT_LIMIT as int,
        );
        lemma_tdiv_abs_le(
            num as int * d1y as int,
            det as int,
            4 * PT_LIMIT as int * PT_LIMIT as int * PT_LIMIT as int,
        );
    }
    let x: i64 = sat_i64(p1.x as i128 + qx);
    let y: i64 = sat_i64(p1.y as i128 + qy);
    Option::Some(Vec2 { x, y })
}

/// Offset endpoints keep within the sum of the point and width magnitudes.
pub proof fn lemma_left_side_bounds(p1: Vec2, p2: Vec2, width: int, bp: int, bw: int)
    requires
        p1 != p2,
        abs_int(p1.x as int) <= bp,
        abs_int(p1.y as int) <= bp,
        abs_int(p2.x as int) <= bp,
        abs_int(p2.y as int) <= bp,
        abs_int(width) <= bw,
        0 <= bp,
        0 <= bw,
        bp + bw <= 0x1000_0000_0000_0000,
    ensures
        abs_int(left_side_spec(p1, p2, width).0.x as int) <= bp + bw,
        abs_int(left_side_spec(p1, p2, width).0.y as int) <= bp + bw,
        abs_int(left_side_spec(p1, p2, width).1.x as int) <= bp + bw,
        abs_int(left_side_spec(p1, p2, width).1.y as int) <= bp + bw,
        v_sub(left_side_spec(p1, p2, width).1, left_side_spec(p1, p2, width).0) == v_sub(p2, p1),
{
    let dx = p2.x as int - p1.x as int;
    let dy = p2.y as int - p1.y as int;
    let n = dx * dx + dy * dy;
    assert(n >= 1 && dx * dx >= 0 && dy * dy >= 0 && dx * dx <= n && dy * dy <= n)
        by (nonlinear_arith)
        requires
            !(dx == 0 && dy == 0),
            n == dx * dx + dy * dy,
    ;
    let len = sqrt_floor(n);
    lemma_sqrt_floor_exists(n);
    lemma_square_bounds_root(dx, n);
    lemma_square_bounds_root(dy, n);
    assert(len >= 1) by {
        if len == 0 {
            assert(n < (0 + 1) * (0 + 1));
        }
    };
    assert(abs_int(-dy * width) <= bw * len && abs_int(dx * width) <= bw * len)
        by (nonlinear_arith)
        requires
            abs_int(dy) <= len,
            abs_int(dx) <= len,
            abs_int(width) <= bw,
            0 <= bw,
            0 <= len,
    ;
    assert(abs_int(len) == len);
    lemma_tdiv_quotient_bound(-dy * width, len, bw);
    lemma_tdiv_quotient_bound(dx * width, len, bw);
}

/// The endpoints of the segment `p1 -> p2` shifted left by `width`, or
/// nothing for a degenerate zero-length segment.
pub fn calc_left_side_segment(p1: Vec2, p2: Vec2, width: i64) -> (r: Option<(Vec2, Vec2)>)
    requires
        pt_ok(p1),
        pt_ok(p2),
        abs_int(width as int) <= PT_LIMIT,
    ensures
        r is Some <==> p1 != p2,
        p1 != p2 ==> r == Option::Some(left_side_spec(p1, p2, width as int)),
{
    let dx: i64 = p2.x - p1.x;
    let dy: i64 = p2.y - p1.y;
    if dx == 0 && dy == 0 {
        return Option::None;
    }
    proof {
        lemma_mul_bounds(dx as int, dx as int, 2 * PT_LIMIT as int, 2 * PT_LIMIT as int);
        lemma_mul_bounds(dy as int, dy as int, 2 * PT_LIMIT as int, 2 * PT_LIMIT as int);
        assert(dx as int * dx as int >= 0 && dy as int * dy as int >= 0
            && !(dx as int * dx as int == 0 && dy as int * dy as int == 0)) by (nonlinear_arith)
            requires
                !(dx == 0 && dy == 0),
        ;
    }
    let n: i128 = dx as i128 * dx as i128 + dy as i128 * dy as i128;
    let len: i128 = isqrt(n as u128) as i128;
    let ndy: i128 = -(dy as i128);
    proof {
        lemma_sqrt_floor_exists(n as int);
        if len == 0 {
            assert((n as int) < (sqrt_floor(n as int) + 1) * (sqrt_floor(n as int) + 1));
            assert((sqrt_floor(n as int) + 1) * (sqrt_floor(n as int) + 1) == 1)
                by (nonlinear_arith)
                requires
                    sqrt_floor(n as int) == 0,
            ;
        }
        assert(len >= 1);
        lemma_square_bounds_root(dx as int, n as int);
        lemma_square_bounds_root(dy as int, n as int);
        assert(abs_int(ndy as int) == abs_int(dy as int));
        lemma_mul_bounds(ndy as int, width as int, 2 * PT_LIMIT as int, PT_LIMIT as int);
        lemma_mul_bounds(dx as int, width as int, 2 * PT_LIMIT as int, PT_LIMIT as int);
        assert(abs_int(ndy as int * width as int) <= abs_int(width as int) * len && abs_int(
            dx as int * width as int,
        ) <= abs_int(width as int) * len) by (nonlinear_arith)
            requires
                abs_int(ndy as int) <= len,
                abs_int(dx as int) <= len,
                0 <= len,
        ;
        assert(abs_int(ndy as int) <= len);
        lemma_tdiv_quotient_bound(ndy as int * width as int, len as int, abs_int(width as int));
        lemma_tdiv_quotient_bound(dx as int * width as int, len as int, abs_int(width as int));
    }
    let ox: i64 = divt(ndy * width as i128, len) as i64;
    let oy: i64 = divt(dx as i128 * width as i128, len) as i64;
    Option::Some(
        (Vec2 { x: p1.x + ox, y: p1.y + oy }, Vec2 { x: p2.x + ox, y: p2.y + oy }),
    )
}

/// The endpoints of the segment `p1 -> p2` shifted right by `width`: the
/// left-hand offset of the reversed segment, swapped back.
pub fn calc_right_side_segment(p1: Vec2, p2: Vec2, width: i64) -> (r: Option<(Vec2, Vec2)>)
    requires
        pt_ok(p1),
        pt_ok(p2),
        abs_int(width as int) <= PT_LIMIT,
    ensures
        r is Some <==> p1 != p2,
        p1 != p2 ==> r == Option::Some(right_side_spec(p1, p2, width as int)),
{
    match calc_left_side_segment(p2, p1, width) {
        Option::Some((a, b)) => Option::Some((b, a)),
        Option::None => Option::None,
    }
}

/// Project `p` orthogonally onto the infinite line through `a` and `b`.
pub fn project_point_onto_line(p: Vec2, a: Vec2, b: Vec2) -> (r: Vec2)
    requires
        pt_ok(p),
        pt_ok(a),
        pt_ok(b),
        a != b,
    ensures
        r == project_spec(p, a, b),
{
    let vx: i128 = b.x as i128 - a.x as i128;
    let vy: i128 = b.y as i128 - a.y as i128;
    let wx: i128 = p.x as i128 - a.x as i128;
    let wy: i128 = p.y as i128 - a.y as i128;
    proof {
        lemma_mul_bounds(wx as int, vx as int, 2 * PT_LIMIT as int, 2 * PT_LIMIT as int);
        lemma_mul_bounds(wy as int, vy as int, 2 * PT_LIMIT as int, 2 * PT_LIMIT as int);
        lemma_mul_bounds(vx as int, vx as int, 2 * PT_LIMIT as int, 2 * PT_LIMIT as int);
        lemma_mul_bounds(vy as int, vy as int, 2 * PT_LIMIT as int, 2 * PT_LIMIT as int);
        assert(vx as int * vx as int >= 0 && vy as int * vy as int >= 0
            && !(vx as int * vx as int + vy as int * vy as int == 0)) by (nonlinear_arith)
            requires
                !(vx == 0 && vy == 0),
        ;
    }
    let num: i128 = wx * vx + wy * vy;
    let den: i128 = vx * vx + vy * vy;
    proof {
        lemma_mul_bounds(
            num as int,
            vx as int,
            8 * PT_LIMIT as int * PT_LIMIT as int,
            2 * PT_LIMIT as int,
        );
        lemma_mul_bounds(
            num as int,
            vy as int,
            8 * PT_LIMIT as int * PT_LIMIT as int,
            2 * PT_LIMIT as int,
        );
    }
    let qx: i128 = divt(num * vx, den);
    let qy: i128 = divt(num * vy, den);
    proof {
        lemma_tdiv_abs_le(
            num as int * vx as int,
            den as int,
            16 * PT_LIMIT as int * PT_LIMIT as int * PT_LIMIT as int,
        );
        lemma_tdiv_abs_le(
            num as int * vy as int,
            den as int,
            16 * PT_LIMIT as int * PT_LIMIT as int * PT_LIMIT as int,
        );
    }
    let x: i64 = sat_i64(a.x as i128 + qx);
    let y: i64 = sat_i64(a.y as i128 + qy);
    Vec2 { x, y }
}

/// The difference `a - b`, componentwise.
pub open spec fn v_sub(a: Vec2, b: Vec2) -> Vec2 {
    Vec2 { x: (a.x - b.x) as i64, y: (a.y - b.y) as i64 }
}

/// The difference `a - b` of two in-range points.
pub fn sub_vec(a: Vec2, b: Vec2) -> (r: Vec2)
    requires
        abs_int(a.x as int) <= 0x2000_0000_0000_0000,
        abs_int(a.y as int) <= 0x2000_0000_0000_0000,
        abs_int(b.x as int) <= 0x2000_0000_0000_0000,
        abs_int(b.y as int) <= 0x2000_0000_0000_0000,
    ensures
        r == v_sub(a, b),
{
    Vec2 { x: a.x - b.x, y: a.y - b.y }
}

/// The left-hand perpendicular of `v`: `v` rotated a quarter turn
/// counterclockwise.
pub open spec fn perp_spec(v: Vec2) -> Vec2 {
    Vec2 { x: (-v.y) as i64, y: v.x }
}

/// `v` rotated by `ang` angle units: the complex product with
/// `(cos ang, sin ang)`, each coordinate divided by the fixed-point scale
/// with truncation.
pub open spec fn rotate_spec(v: Vec2, ang: int) -> Vec2 {
    let c = cos_spec(ang);
    let s = sin_spec(ang);
    Vec2 {
        x: tdiv(v.x * c - v.y * s, FIXED_ONE as int) as i64,
        y: tdiv(v.x * s + v.y * c, FIXED_ONE as int) as i64,
    }
}

/// `v` scaled to length `FIXED_ONE` (rounded): `v * FIXED_ONE / |v|` with the
/// length rounded down and the quotients truncated.
pub open spec fn normalize_spec(v: Vec2) -> Vec2 {
    let len = sqrt_floor(v.x * v.x + v.y * v.y);
    Vec2 {
        x: tdiv(v.x * FIXED_ONE, len) as i64,
        y: tdiv(v.y * FIXED_ONE, len) as i64,
    }
}

/// The signed angle from `a` to `b` in angle units: the arctangent of the
/// cross and dot products of the two vectors.
pub open spec fn angle_between_spec(a: Vec2, b: Vec2) -> int {
    atan2_spec(cross_of(a, b), dot_of(a, b))
}

/// Rotate `v` by `ang` angle units.
pub fn rotate_vec(v: Vec2, ang: i64) -> (r: Vec2)
    requires
        pt_ok(v),
        abs_int(ang as int) <= 0x1_0000_0000,
    ensures
        r == rotate_spec(v, ang as int),
        abs_int(r.x as int) <= abs_int(v.x as int) + abs_int(v.y as int),
        abs_int(r.y as int) <= abs_int(v.x as int) + abs_int(v.y as int),
{
    let c: i128 = cos_units(ang) as i128;
    let s: i128 = sin_units(ang) as i128;
    proof {
        lemma_mul_bounds(v.x as int, c as int, abs_int(v.x as int), FIXED_ONE as int);
        lemma_mul_bounds(v.y as int, s as int, abs_int(v.y as int), FIXED_ONE as int);
        lemma_mul_bounds(v.x as int, s as int, abs_int(v.x as int), FIXED_ONE as int);
        lemma_mul_bounds(v.y as int, c as int, abs_int(v.y as int), FIXED_ONE as int);
        assert((abs_int(v.x as int) + abs_int(v.y as int)) * FIXED_ONE as int == abs_int(
            v.x as int,
        ) * FIXED_ONE as int + abs_int(v.y as int) * FIXED_ONE as int) by (nonlinear_arith);
        lemma_tdiv_quotient_bound(
            v.x as int * c as int - v.y as int * s as int,
            FIXED_ONE as int,
            abs_int(v.x as int) + abs_int(v.y as int),
        );
        lemma_tdiv_quotient_bound(
            v.x as int * s as int + v.y as int * c as int,
            FIXED_ONE as int,
            abs_int(v.x as int) + abs_int(v.y as int),
        );
    }
    let rx: i128 = divt(v.x as i128 * c - v.y as i128 * s, 32768);
    let ry: i128 = divt(v.x as i128 * s + v.y as i128 * c, 32768);
    Vec2 { x: rx as i64, y: ry as i64 }
}

/// Scale a nonzero vector to length `FIXED_ONE`.
pub fn normalize_units(v: Vec2) -> (r: Vec2)
    requires
        abs_int(v.x as int) <= 0x4000_0000_0000,
        abs_int(v.y as int) <= 0x4000_0000_0000,
        !(v.x == 0 && v.y == 0),
    ensures
        r == normalize_spec(v),
        abs_int(r.x as int) <= FIXED_ONE,
        abs_int(r.y as int) <= FIXED_ONE,
{
    proof {
        lemma_mul_bounds(v.x as int, v.x as int, 0x4000_0000_0000, 0x4000_0000_0000);
        lemma_mul_bounds(v.y as int, v.y as int, 0x4000_0000_0000, 0x4000_0000_0000);
        assert(v.x as int * v.x as int >= 0 && v.y as int * v.y as int >= 0 && !(v.x as int
            * v.x as int + v.y as int * v.y as int == 0)) by (nonlinear_arith)
            requires
                !(v.x == 0 && v.y == 0),
        ;
    }
    let n: i128 = v.x as i128 * v.x as i128 + v.y as i128 * v.y as i128;
    let len: i128 = isqrt(n as u128) as i128;
    proof {
        lemma_sqrt_floor_exists(n as int);
        if len == 0 {
            assert((n as int) < (sqrt_floor(n as int) + 1) * (sqrt_floor(n as int) + 1));
            assert((sqrt_floor(n as int) + 1) * (sqrt_floor(n as int) + 1) == 1)
                by (nonlinear_arith)
                requires
                    sqrt_floor(n as int) == 0,
            ;
        }
        assert(len >= 1);
        lemma_square_bounds_root(v.x as int, n as int);
        lemma_square_bounds_root(v.y as int, n as int);
        lemma_mul_bounds(v.x as int, FIXED_ONE as int, 0x4000_0000_0000, FIXED_ONE as int);
        lemma_mul_bounds(v.y as int, FIXED_ONE as int, 0x4000_0000_0000, FIXED_ONE as int);
        assert(abs_int(v.x as int * FIXED_ONE as int) <= FIXED_ONE as int * len && abs_int(
            v.y as int * FIXED_ONE as int,
        ) <= FIXED_ONE as int * len) by (nonlinear_arith)
            requires
                abs_int(v.x as int) <= len,
                abs_int(v.y as int) <= len,
                0 <= len,
        ;
        lemma_tdiv_quotient_bound(v.x as int * FIXED_ONE as int, len as int, FIXED_ONE as int);
        lemma_tdiv_quotient_bound(v.y as int * FIXED_ONE as int, len as int, FIXED_ONE as int);
    }
    let rx: i128 = divt(v.x as i128 * 32768, len);
    let ry: i128 = divt(v.y as i128 * 32768, len);
    Vec2 { x: rx as i64, y: ry as i64 }
}

/// The signed angle from `a` to `b`, in `[-HALF_TURN, HALF_TURN]`.
pub fn angle_between(a: Vec2, b: Vec2) -> (r: i64)
    requires
        pt_ok(a),
        pt_ok(b),
        !(cross_of(a, b) == 0 && dot_of(a, b) == 0),
    ensures
        r == angle_between_spec(a, b),
        abs_int(r as int) <= HALF_TURN,
{
    proof {
        lemma_mul_bounds(a.x as int, b.y as int, PT_LIMIT as int, PT_LIMIT as int);
        lemma_mul_bounds(a.y as int, b.x as int, PT_LIMIT as int, PT_LIMIT as int);
        lemma_mul_bounds(a.x as int, b.x as int, PT_LIMIT as int, PT_LIMIT as int);
        lemma_mul_bounds(a.y as int, b.y as int, PT_LIMIT as int, PT_LIMIT as int);
    }
    let cross: i128 = a.x as i128 * b.y as i128 - a.y as i128 * b.x as i128;
    let dot: i128 = a.x as i128 * b.x as i128 + a.y as i128 * b.y as i128;
    atan2_units(cross, dot)
}

} // verus!
