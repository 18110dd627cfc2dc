//! Per-vertex coloring of a stroke: a constant fill, a gradient across the
//! stroke's lateral extent, or one color per path vertex.
//!
//! A lateral coordinate is a fixed-point value in `[-FIXED_ONE, FIXED_ONE]`:
//! `-FIXED_ONE` is the stroke's left edge, `0` its center and `FIXED_ONE`
//! its right edge.
use vstd::prelude::*;
use crate::num::tdiv;
use crate::num::abs_int;
use crate::num::divt;
use crate::num::lemma_mul_bounds;
use crate::num::lemma_tdiv_quotient_bound;
use crate::trig::FIXED_ONE;

verus! {

/// An RGBA color with 8-bit channels.
#[derive(Clone, Copy, PartialEq, Eq, Structural, Debug)]
pub struct Rgba {
    pub r: u8,
    pub g: u8,
    pub b: u8,
    pub a: u8,
}

/// How a stroke is colored.
#[derive(Clone, Debug)]
pub enum LineColor {
    /// One constant color for the whole stroke.
    Fill(Rgba),
    /// A linear blend from the left edge to the right edge.
    GradientAcross { left: Rgba, right: Rgba },
    /// One color per path vertex, indexed by the source path index.
    PerVertex(Vec<Rgba>),
}

/// One channel blended from `l` at lateral `-FIXED_ONE` to `r` at
/// `FIXED_ONE`: `l + (r - l) (g + FIXED_ONE) / (2 FIXED_ONE)` with the
/// quotient truncated toward zero.
pub open spec fn lerp_channel_spec(l: u8, r: u8, g: int) -> u8 {
    (l + tdiv((r - l) * (g + FIXED_ONE), 2 * FIXED_ONE as int)) as u8
}

/// Both colors blended channelwise at lateral coordinate `g`.
pub open spec fn lerp_rgba_spec(l: Rgba, r: Rgba, g: int) -> Rgba {
    Rgba {
        r: lerp_channel_spec(l.r, r.r, g),
        g: lerp_channel_spec(l.g, r.g, g),
        b: lerp_channel_spec(l.b, r.b, g),
        a: lerp_channel_spec(l.a, r.a, g),
    }
}

/// The color a generated vertex receives, given its source path index and
/// its lateral coordinate.
pub open spec fn color_at_spec(c: LineColor, index: int, g: int) -> Rgba {
    match c {
        LineColor::Fill(col) => col,
        LineColor::GradientAcross { left, right } => lerp_rgba_spec(left, right, g),
        LineColor::PerVertex(cols) => cols[index],
    }
}

/// Blend one channel at lateral coordinate `g`.
fn lerp_channel(l: u8, r: u8, g: i64) -> (c: u8)
    requires
        abs_int(g as int) <= FIXED_ONE,
    ensures
        c == lerp_channel_spec(l, r, g as int),
{
    let diff: i128 = r as i128 - l as i128;
    let t: i128 = g as i128 + 32768;
    proof {
        lemma_mul_bounds(diff as int, t as int, abs_int(diff as int), 2 * FIXED_ONE as int);
        lemma_tdiv_quotient_bound(
            diff as int * t as int,
            2 * FIXED_ONE as int,
            abs_int(diff as int),
        );
    }
    let q: i128 = divt(diff * t, 65536);
    proof {
        if diff >= 0 {
            assert(diff as int * t as int >= 0) by (nonlinear_arith)
                requires
                    diff >= 0,
                    t >= 0,
            ;
            assert(q >= 0);
            assert(l as int + q as int <= r as int);
        } else {
            assert(diff as int * t as int <= 0) by (nonlinear_arith)
                requires
                    diff <= 0,
                    t >= 0,
            ;
            assert(q <= 0);
            assert(l as int + q as int >= r as int);
        }
    }
    (l as i128 + q) as u8
}

/// At the left edge the blend is the left color; at the right edge it is the
/// right color; at the center every channel is the truncated midpoint.
pub proof fn lemma_gradient_edges(l: Rgba, r: Rgba)
    ensures
        lerp_rgba_spec(l, r, -FIXED_ONE as int) == l,
        lerp_rgba_spec(l, r, FIXED_ONE as int) == r,
        lerp_rgba_spec(l, r, 0).r == (l.r + tdiv(r.r - l.r, 2)) as u8,
        lerp_rgba_spec(l, r, 0).g == (l.g + tdiv(r.g - l.g, 2)) as u8,
        lerp_rgba_spec(l, r, 0).b == (l.b + tdiv(r.b - l.b, 2)) as u8,
        lerp_rgba_spec(l, r, 0).a == (l.a + tdiv(r.a - l.a, 2)) as u8,
{
    lemma_lerp_channel_edges(l.r, r.r);
    lemma_lerp_channel_edges(l.g, r.g);
    lemma_lerp_channel_edges(l.b, r.b);
    lemma_lerp_channel_edges(l.a, r.a);
}

/// Channel-level edge and midpoint facts behind `lemma_gradient_edges`.
proof fn lemma_lerp_channel_edges(l: u8, r: u8)
    ensures
        lerp_channel_spec(l, r, -FIXED_ONE as int) == l,
        lerp_channel_spec(l, r, FIXED_ONE as int) == r,
        lerp_channel_spec(l, r, 0) == (l + tdiv(r - l, 2)) as u8,
{
    let one = FIXED_ONE as int;
    let d = r - l;
    assert(d * (-one + one) == 0) by (nonlinear_arith);
    assert(tdiv(0, 2 * one) == 0);
    assert(d * (one + one) == d * (2 * one)) by (nonlinear_arith);
    assert(tdiv(d * (2 * one), 2 * one) == d) by {
        assert(abs_int(d * (2 * one)) == abs_int(d) * (2 * one)) by (nonlinear_arith)
            requires
                one == 32768,
        ;
        vstd::arithmetic::div_mod::lemma_div_by_multiple(abs_int(d), 2 * one);
    };
    assert(d * (0 + one) == d * one) by (nonlinear_arith);
    assert(tdiv(d * one, 2 * one) == tdiv(d, 2)) by {
        assert(abs_int(d * one) == abs_int(d) * one) by (nonlinear_arith)
            requires
                one == 32768,
        ;
        assert(one * 2 == 2 * one);
        vstd::arithmetic::div_mod::lemma_div_denominator(abs_int(d) * one, one, 2);
        vstd::arithmetic::div_mod::lemma_div_by_multiple(abs_int(d), one);
    };
}

impl LineColor {
    /// Resolve the color of a generated vertex: `index` is its source path
    /// index and `gradient` its lateral coordinate.
    pub fn get(&self, index: usize, gradient: i64) -> (c: Rgba)
        requires
            abs_int(gradient as int) <= FIXED_ONE,
            self matches LineColor::PerVertex(cols) ==> index < cols@.len(),
        ensures
            c == color_at_spec(*self, index as int, gradient as int),
    {
        match self {
            LineColor::Fill(col) => *col,
            LineColor::GradientAcross { left, right } => Rgba {
                r: lerp_channel(left.r, right.r, gradient),
                g: lerp_channel(left.g, right.g, gradient),
                b: lerp_channel(left.b, right.b, gradient),
                a: lerp_channel(left.a, right.a, gradient),
            },
            LineColor::PerVertex(cols) => cols[index],
        }
    }
}

} // verus!
