//! The stroke tessellator: an ordered path of points plus a stroke style
//! becomes a triangulated mesh.
//!
//! Coordinates are integer units chosen by the caller (a caller wanting
//! fractional precision scales its data up). A path of `n >= 2` points is
//! expanded to a ribbon of quads around it: each interior corner contributes
//! either a sharp miter pair of vertices or a rounded fan, open ends get
//! side-offset pairs and, in the rounded style, semicircular caps, and a
//! connected path is stitched into a seamless ring.
use vstd::prelude::*;
use crate::num::abs_int;
use crate::num::tdiv;
use crate::num::sat;
use crate::num::divt;
use crate::num::sat_i64;
use crate::num::lemma_mul_bounds;
use crate::num::lemma_tdiv_abs_le;
use crate::num::lemma_tdiv_quotient_bound;
use crate::num::SAT_BOUND;
use crate::trig::FIXED_ONE;
use crate::trig::HALF_TURN;
use crate::trig::FULL_TURN;
use crate::trig::QUARTER_TURN;
use crate::trig::sin_spec;
use crate::trig::sin_units;
use crate::vector_utils::Vec2;
use crate::vector_utils::Orientation;
use crate::vector_utils::PT_LIMIT;
use crate::vector_utils::cross_of;
use crate::vector_utils::v_sub;
use crate::vector_utils::perp_spec;
use crate::vector_utils::sub_vec;
use crate::vector_utils::orientation_of;
use crate::vector_utils::orientation_test;
use crate::vector_utils::intersection_spec;
use crate::vector_utils::intersection_point;
use crate::vector_utils::left_side_spec;
use crate::vector_utils::right_side_spec;
use crate::vector_utils::calc_left_side_segment;
use crate::vector_utils::calc_right_side_segment;
use crate::vector_utils::project_spec;
use crate::vector_utils::project_point_onto_line;
use crate::vector_utils::rotate_spec;
use crate::vector_utils::rotate_vec;
use crate::vector_utils::normalize_spec;
use crate::vector_utils::normalize_units;
use crate::vector_utils::angle_between_spec;
use crate::vector_utils::angle_between;
use crate::color::Rgba;
use crate::color::LineColor;
use crate::color::color_at_spec;

verus! {

/// Bound on path coordinates, widths, offsets and radii the tessellator
/// accepts, so that every intermediate product fits its machine word.
pub const PATH_LIMIT: i64 = 0x4000_0000;

/// Bound on the number of path points, keeping vertex indices within `u32`.
pub const MAX_POINTS: usize = 1000000;

/// Bound on the rounded-corner resolution.
pub const MAX_RESOLUTION: usize = 1000;

/// How corners between consecutive segments are treated.
#[derive(Clone, Copy, PartialEq, Eq, Structural, Debug)]
pub enum CornerStyle {
    /// Intersect the two adjacent offset lines into a miter point.
    Sharp,
    /// Insert a circular arc of the given radius; `resolution` is the target
    /// vertex count for a full circle, scaled down to the swept angle.
    Rounded { radius: i64, resolution: usize },
}

/// How the stroke's width is distributed around the path.
#[derive(Clone, Copy, PartialEq, Eq, Structural, Debug)]
pub enum Alignment {
    /// Half the width on each side.
    Center,
    /// The full width on the left side.
    LeftSide,
    /// The full width on the right side.
    RightSide,
    /// Centered, then shifted to the right by the given signed distance.
    Offset(i64),
}

/// Whether the path wraps around from its last point back to its first.
#[derive(Clone, Copy, PartialEq, Eq, Structural, Debug)]
pub enum ConnectionStyle {
    Connected,
    Unconnected,
}

/// Why a stroke description was rejected before any geometry work.
#[derive(Clone, Copy, PartialEq, Eq, Structural, Debug)]
pub enum ConstructionError {
    /// The path holds fewer than two points.
    PathTooShort,
    /// A per-vertex color list does not match the path length.
    ColorCountMismatch,
    /// A rounded style asked for a resolution of zero.
    NonPositiveResolution,
}

/// A triangulated mesh: parallel vertex and color arrays plus triangle
/// indices in groups of three.
#[derive(Clone, Debug)]
pub struct Mesh {
    pub positions: Vec<Vec2>,
    pub indices: Vec<u32>,
    pub colors: Vec<Rgba>,
}

/// A path with its stroke style and coloring, ready to tessellate.
#[derive(Clone, Debug)]
pub struct FlexLine {
    pub locations: Vec<Vec2>,
    pub width: i64,
    pub corner_style: CornerStyle,
    pub alignment: Alignment,
    pub connection_style: ConnectionStyle,
    pub color: LineColor,
}

/// The width placed on the left side of the path.
pub open spec fn left_width_spec(a: Alignment, width: int) -> int {
    match a {
        Alignment::Center => width / 2,
        Alignment::LeftSide => width,
        Alignment::RightSide => 0,
        Alignment::Offset(d) => width / 2 - d,
    }
}

/// The width placed on the right side of the path: whatever the left side
/// leaves of the total.
pub open spec fn right_width_spec(a: Alignment, width: int) -> int {
    width - left_width_spec(a, width)
}

/// The two side widths always partition the total width exactly; for the
/// `Offset` alignment their difference is twice the offset, up to the parity
/// unit a truncated halving leaves over.
pub proof fn lemma_widths_sum(a: Alignment, width: int)
    ensures
        left_width_spec(a, width) + right_width_spec(a, width) == width,
        a matches Alignment::Offset(d) ==> right_width_spec(a, width) - left_width_spec(a, width)
            == 2 * d + width % 2,
{
    if let Alignment::Offset(d) = a {
        vstd::arithmetic::div_mod::lemma_fundamental_div_mod(width, 2);
    }
}

impl Default for FlexLine {
    /// A unit-width, centered, sharp-cornered, connected white stroke with
    /// no path points yet; points must be supplied before tessellation.
    fn default() -> (r: FlexLine)
        ensures
            r.locations@.len() == 0,
            r.width == 1,
            r.corner_style is Sharp,
            r.alignment is Center,
            r.connection_style is Connected,
            r.color matches LineColor::Fill(c) && c == (Rgba { r: 255, g: 255, b: 255, a: 255 }),
    {
        FlexLine {
            locations: Vec::new(),
            width: 1,
            corner_style: CornerStyle::Sharp,
            alignment: Alignment::Center,
            connection_style: ConnectionStyle::Connected,
            color: LineColor::Fill(Rgba { r: 255, g: 255, b: 255, a: 255 }),
        }
    }
}

impl Alignment {
    /// The width placed on the left side of the path.
    pub fn left_width(&self, width: i64) -> (r: i64)
        requires
            0 <= width <= PATH_LIMIT,
            self matches Alignment::Offset(d) ==> abs_int(d as int) <= PATH_LIMIT,
        ensures
            r == left_width_spec(*self, width as int),
            abs_int(r as int) <= 2 * PATH_LIMIT,
    {
        match self {
            Alignment::Center => width / 2,
            Alignment::LeftSide => width,
            Alignment::RightSide => 0,
            Alignment::Offset(d) => width / 2 - *d,
        }
    }

    /// The width placed on the right side of the path.
    pub fn right_width(&self, width: i64) -> (r: i64)
        requires
            0 <= width <= PATH_LIMIT,
            self matches Alignment::Offset(d) ==> abs_int(d as int) <= PATH_LIMIT,
        ensures
            r == right_width_spec(*self, width as int),
            abs_int(r as int) <= 2 * PATH_LIMIT,
    {
        width - self.left_width(width)
    }
}

impl FlexLine {
    /// The left side width of this stroke.
    pub open spec fn lw_spec(self) -> int {
        left_width_spec(self.alignment, self.width as int)
    }

    /// The right side width of this stroke.
    pub open spec fn rw_spec(self) -> int {
        right_width_spec(self.alignment, self.width as int)
    }

    /// Well-formedness, established at construction: at least two path
    /// points, per-vertex colors matched to the path, a positive resolution.
    pub open spec fn wf(self) -> bool {
        &&& self.locations@.len() >= 2
        &&& (self.color matches LineColor::PerVertex(cols) ==> cols@.len()
            == self.locations@.len())
        &&& (self.corner_style matches CornerStyle::Rounded { resolution, .. } ==> resolution
            >= 1)
    }

    /// Machine limits on the input magnitudes, so that tessellation cannot
    /// overflow: path coordinates, width, offset and radius within
    /// `PATH_LIMIT`, the point count within `MAX_POINTS` and the resolution
    /// within `MAX_RESOLUTION`.
    pub open spec fn bounds_ok(self) -> bool {
        &&& self.locations@.len() <= MAX_POINTS
        &&& (forall|i: int|
            0 <= i < self.locations@.len() ==> abs_int(#[trigger] self.locations@[i].x as int)
                <= PATH_LIMIT && abs_int(self.locations@[i].y as int) <= PATH_LIMIT)
        &&& 0 <= self.width <= PATH_LIMIT
        &&& (self.alignment matches Alignment::Offset(d) ==> abs_int(d as int) <= PATH_LIMIT)
        &&& (self.corner_style matches CornerStyle::Rounded { radius, resolution } ==> 0 <= radius
            <= PATH_LIMIT && resolution <= MAX_RESOLUTION)
    }

    /// Whether the path wraps around.
    pub open spec fn is_connected_spec(self) -> bool {
        self.connection_style matches ConnectionStyle::Connected
    }

    /// Validate a stroke description and build the tessellation input; a
    /// rejected description reports why before any geometry work.
    pub fn new(
        locations: Vec<Vec2>,
        width: i64,
        alignment: Alignment,
        corner_style: CornerStyle,
        connection_style: ConnectionStyle,
        color: LineColor,
    ) -> (r: Result<FlexLine, ConstructionError>)
        ensures
            r matches Ok(line) ==> {
                &&& line == (FlexLine {
                    locations,
                    width,
                    corner_style,
                    alignment,
                    connection_style,
                    color,
                })
                &&& line.locations@ == locations@
                &&& line.width == width
                &&& line.alignment == alignment
                &&& line.corner_style == corner_style
                &&& line.connection_style == connection_style
                &&& line.color == color
                &&& line.wf()
            },
            r is Ok <==> {
                &&& locations@.len() >= 2
                &&& (color matches LineColor::PerVertex(cols) ==> cols@.len()
                    == locations@.len())
                &&& (corner_style matches CornerStyle::Rounded { resolution, .. } ==> resolution
                    >= 1)
            },
            r == Result::<FlexLine, ConstructionError>::Err(ConstructionError::PathTooShort)
                <==> locations@.len() < 2,
            r == Result::<FlexLine, ConstructionError>::Err(ConstructionError::ColorCountMismatch)
                <==> (locations@.len() >= 2 && !(color matches LineColor::PerVertex(cols)
                ==> cols@.len() == locations@.len())),
    {
        if locations.len() < 2 {
            return Result::Err(ConstructionError::PathTooShort);
        }
        if let LineColor::PerVertex(cols) = &color {
            if cols.len() != locations.len() {
                return Result::Err(ConstructionError::ColorCountMismatch);
            }
        }
        if let CornerStyle::Rounded { resolution, .. } = corner_style {
            if resolution == 0 {
                return Result::Err(ConstructionError::NonPositiveResolution);
            }
        }
        Result::Ok(
            FlexLine { locations, width, corner_style, alignment, connection_style, color },
        )
    }

    /// Whether the path wraps around.
    pub fn is_connected(&self) -> (r: bool)
        ensures
            r == self.is_connected_spec(),
    {
        match self.connection_style {
            ConnectionStyle::Connected => true,
            ConnectionStyle::Unconnected => false,
        }
    }

    /// The left side width of this stroke.
    pub fn left_width(&self) -> (r: i64)
        requires
            self.bounds_ok(),
        ensures
            r == self.lw_spec(),
            abs_int(r as int) <= 2 * PATH_LIMIT,
    {
        self.alignment.left_width(self.width)
    }

    /// The right side width of this stroke.
    pub fn right_width(&self) -> (r: i64)
        requires
            self.bounds_ok(),
        ensures
            r == self.rw_spec(),
            abs_int(r as int) <= 2 * PATH_LIMIT,
    {
        self.alignment.right_width(self.width)
    }

    /// The successor of a path index: the next index, wrapping for a
    /// connected path, and nothing past the end of an open one.
    pub fn get_next_idx(&self, idx: usize) -> (r: Option<usize>)
        requires
            self.wf(),
            self.locations@.len() <= MAX_POINTS,
            idx < self.locations@.len(),
        ensures
            r is Some <==> (self.is_connected_spec() || idx + 1 < self.locations@.len()),
            r matches Some(k) ==> k == (idx + 1) as int % self.locations@.len() as int,
    {
        if self.is_connected() || idx < self.locations.len() - 1 {
            Some((idx + 1) % self.locations.len())
        } else {
            None
        }
    }

    /// The predecessor of a path index: the previous index, wrapping for a
    /// connected path, and nothing before the start of an open one.
    pub fn get_prev_idx(&self, idx: usize) -> (r: Option<usize>)
        requires
            self.wf(),
            self.locations@.len() <= MAX_POINTS,
            idx < self.locations@.len(),
        ensures
            r is Some <==> (self.is_connected_spec() || idx > 0),
            r matches Some(k) ==> k == (idx + self.locations@.len() - 1) as int
                % self.locations@.len() as int,
    {
        if self.is_connected() || idx > 0 {
            Some((idx + self.locations.len() - 1) % self.locations.len())
        } else {
            None
        }
    }

    /// The miter pair at an interior corner: the intersections of the left
    /// offset lines and of the right offset lines of the two adjacent
    /// segments, or nothing when a segment is degenerate or the offset lines
    /// are parallel.
    #[verifier::opaque]
    pub open spec fn sharp_verts_spec(self, prev: Vec2, loc: Vec2, next: Vec2) -> Option<
        (Vec2, Vec2),
    > {
        if prev == loc || loc == next {
            Option::None
        } else {
            let la = left_side_spec(prev, loc, self.lw_spec());
            let lb = left_side_spec(loc, next, self.lw_spec());
            let ra = right_side_spec(prev, loc, self.rw_spec());
            let rb = right_side_spec(loc, next, self.rw_spec());
            let li = intersection_spec(la.0, v_sub(la.1, la.0), lb.1, v_sub(lb.0, lb.1));
            let ri = intersection_spec(ra.0, v_sub(ra.1, ra.0), rb.1, v_sub(rb.0, rb.1));
            if li is Some && ri is Some {
                Option::Some((li->Some_0, ri->Some_0))
            } else {
                Option::None
            }
        }
    }

    /// The two offset segments on the turn's inner side: the right side for
    /// a right turn, the left side for a left turn.
    #[verifier::opaque]
    pub open spec fn rc_sides(self, prev: Vec2, loc: Vec2, next: Vec2) -> (
        (Vec2, Vec2),
        (Vec2, Vec2),
    ) {
        if orientation_of(prev, loc, next) == Orientation::Right {
            (
                right_side_spec(prev, loc, self.rw_spec()),
                right_side_spec(loc, next, self.rw_spec()),
            )
        } else {
            (left_side_spec(prev, loc, self.lw_spec()), left_side_spec(loc, next, self.lw_spec()))
        }
    }

    /// The interior angle at the corner, in angle units, positive for either
    /// turn direction.
    #[verifier::opaque]
    pub open spec fn rc_inner_angle(self, prev: Vec2, loc: Vec2, next: Vec2) -> int {
        if orientation_of(prev, loc, next) == Orientation::Right {
            -angle_between_spec(v_sub(next, loc), v_sub(prev, loc))
        } else {
            angle_between_spec(v_sub(loc, next), v_sub(loc, prev))
        }
    }

    /// The angle swept on the corner's outside: a full turn less the
    /// interior angle.
    pub open spec fn rc_corner_angle(self, prev: Vec2, loc: Vec2, next: Vec2) -> int {
        FULL_TURN - self.rc_inner_angle(prev, loc, next)
    }

    /// The meeting point of the two inner offset lines.
    #[verifier::opaque]
    pub open spec fn rc_meet(self, prev: Vec2, loc: Vec2, next: Vec2) -> Vec2 {
        let (sa, sb) = self.rc_sides(prev, loc, next);
        intersection_spec(sa.0, v_sub(sa.1, sa.0), sb.1, v_sub(sb.0, sb.1))->Some_0
    }

    /// The sine of half the outer corner angle, scaled by `FIXED_ONE`.
    #[verifier::opaque]
    pub open spec fn rc_sin_half(self, prev: Vec2, loc: Vec2, next: Vec2) -> int {
        sin_spec(tdiv(self.rc_corner_angle(prev, loc, next), 2))
    }

    /// The direction from the inner meeting point toward the fillet circle's
    /// center: the outgoing segment rotated by half the interior angle.
    #[verifier::opaque]
    pub open spec fn rc_rot(self, prev: Vec2, loc: Vec2, next: Vec2) -> Vec2 {
        let inner = self.rc_inner_angle(prev, loc, next);
        let half = if orientation_of(prev, loc, next) == Orientation::Right {
            -tdiv(inner, 2)
        } else {
            tdiv(inner, 2)
        };
        rotate_spec(v_sub(next, loc), half)
    }

    /// The fillet circle's center: the inner meeting point moved along the
    /// bisector by `radius / sin(corner_angle / 2)`.
    #[verifier::opaque]
    pub open spec fn rc_origo(self, prev: Vec2, loc: Vec2, next: Vec2, radius: int) -> Vec2 {
        let meet = self.rc_meet(prev, loc, next);
        let towards = normalize_spec(self.rc_rot(prev, loc, next));
        let rf = tdiv(radius * FIXED_ONE, self.rc_sin_half(prev, loc, next));
        Vec2 {
            x: sat(meet.x + tdiv(towards.x * rf, FIXED_ONE as int)) as i64,
            y: sat(meet.y + tdiv(towards.y * rf, FIXED_ONE as int)) as i64,
        }
    }

    /// The fan's zero-angle direction: from the fillet center to its
    /// projection onto the outer offset line of the incoming segment.
    #[verifier::opaque]
    pub open spec fn rc_out_vec(self, prev: Vec2, loc: Vec2, next: Vec2, radius: int) -> Vec2 {
        let os = if orientation_of(prev, loc, next) == Orientation::Right {
            left_side_spec(prev, loc, self.rw_spec())
        } else {
            right_side_spec(prev, loc, self.lw_spec())
        };
        let origo = self.rc_origo(prev, loc, next, radius);
        v_sub(project_spec(origo, os.0, os.1), origo)
    }

    /// How many angle steps the fan takes: the resolution scaled to the
    /// swept angle, rounded to the nearest step, and never fewer than two.
    #[verifier::opaque]
    pub open spec fn rc_fan_count(self, prev: Vec2, loc: Vec2, next: Vec2, resolution: int) -> int {
        let raw = tdiv(
            resolution * (self.rc_corner_angle(prev, loc, next) - HALF_TURN) + HALF_TURN,
            FULL_TURN as int,
        );
        if raw < 2 {
            2
        } else {
            raw
        }
    }

    /// The signed angle advanced per fan step: negative for a right turn so
    /// the fan always advances toward the outgoing segment.
    #[verifier::opaque]
    pub open spec fn rc_step(self, prev: Vec2, loc: Vec2, next: Vec2, resolution: int) -> int {
        let step = tdiv(
            self.rc_corner_angle(prev, loc, next) - HALF_TURN,
            self.rc_fan_count(prev, loc, next, resolution),
        );
        if orientation_of(prev, loc, next) == Orientation::Right {
            -step
        } else {
            step
        }
    }

    /// The fan direction at step `i`: the zero-angle direction rotated by
    /// `i` steps and scaled to unit length. A rotation collapsed to zero by
    /// truncation falls back to the unrotated direction.
    #[verifier::opaque]
    pub open spec fn rc_dir(
        self,
        prev: Vec2,
        loc: Vec2,
        next: Vec2,
        radius: int,
        resolution: int,
        i: int,
    ) -> Vec2 {
        let out_vec = self.rc_out_vec(prev, loc, next, radius);
        let rot = rotate_spec(out_vec, i * self.rc_step(prev, loc, next, resolution));
        normalize_spec(
            if rot == (Vec2 { x: 0, y: 0 }) {
                out_vec
            } else {
                rot
            },
        )
    }

    /// The pair of fan vertices at step `i`: one on the outer arc at
    /// `radius + width` from the fillet center, one on the inner arc at
    /// `radius`, ordered so the winding matches the turn direction.
    #[verifier::opaque]
    pub open spec fn rc_pair(
        self,
        prev: Vec2,
        loc: Vec2,
        next: Vec2,
        radius: int,
        resolution: int,
        i: int,
    ) -> (Vec2, Vec2) {
        let origo = self.rc_origo(prev, loc, next, radius);
        let dir = self.rc_dir(prev, loc, next, radius, resolution, i);
        let one = FIXED_ONE as int;
        let outer = Vec2 {
            x: sat(origo.x + tdiv(dir.x * (radius + self.width), one)) as i64,
            y: sat(origo.y + tdiv(dir.y * (radius + self.width), one)) as i64,
        };
        let inner = Vec2 {
            x: sat(origo.x + tdiv(dir.x * radius, one)) as i64,
            y: sat(origo.y + tdiv(dir.y * radius, one)) as i64,
        };
        if orientation_of(prev, loc, next) == Orientation::Right {
            (outer, inner)
        } else {
            (inner, outer)
        }
    }

    /// Append the two triangles of the quad `a b c / b d c`.
    fn add_quad_indices(&self, indices: &mut Vec<u32>, a: u32, b: u32, c: u32, d: u32)
        ensures
            final(indices)@ == old(indices)@ + seq![a, b, c, b, d, c],
    {
        indices.push(a);
        indices.push(b);
        indices.push(c);

        indices.push(b);
        indices.push(d);
        indices.push(c);
    }

    /// Emit a sharp miter corner: push its two vertices and colors, and,
    /// when a boundary pair precedes them, the quad joining the two pairs.
    /// A degenerate or parallel corner emits nothing.
    #[verifier::rlimit(100)]
    fn add_sharp_corner(
        &self,
        vertices: &mut Vec<Vec2>,
        indices: &mut Vec<u32>,
        colors: &mut Vec<Rgba>,
        index: usize,
        prev_idx: usize,
        next_idx: usize,
    )
        requires
            self.wf(),
            self.bounds_ok(),
            index < self.locations@.len(),
            prev_idx < self.locations@.len(),
            next_idx < self.locations@.len(),
            old(vertices)@.len() <= 0x7800_0000,
        ensures
            match self.sharp_verts_spec(
                self.locations@[prev_idx as int],
                self.locations@[index as int],
                self.locations@[next_idx as int],
            ) {
                Option::Some(pair) => {
                    &&& final(vertices)@ == old(vertices)@.push(pair.0).push(pair.1)
                    &&& final(colors)@ == old(colors)@.push(
                        color_at_spec(self.color, index as int, -FIXED_ONE as int),
                    ).push(color_at_spec(self.color, index as int, FIXED_ONE as int))
                    &&& final(indices)@ == old(indices)@ + quad_joining(old(vertices)@.len() as int)
                },
                Option::None => {
                    &&& final(vertices)@ == old(vertices)@
                    &&& final(colors)@ == old(colors)@
                    &&& final(indices)@ == old(indices)@
                },
            },
    {
        proof {
            reveal(FlexLine::sharp_verts_spec);
        }
        let location = self.locations[index];
        let prev = self.locations[prev_idx];
        let next = self.locations[next_idx];
        let lw = self.left_width();
        let rw = self.right_width();

        let la = match calc_left_side_segment(prev, location, lw) {
            Option::Some(seg) => seg,
            Option::None => {
                return ;
            },
        };
        let lb = match calc_left_side_segment(location, next, lw) {
            Option::Some(seg) => seg,
            Option::None => {
                return ;
            },
        };
        let ra = match calc_right_side_segment(prev, location, rw) {
            Option::Some(seg) => seg,
            Option::None => {
                return ;
            },
        };
        let rb = match calc_right_side_segment(location, next, rw) {
            Option::Some(seg) => seg,
            Option::None => {
                return ;
            },
        };

        proof {
            crate::vector_utils::lemma_left_side_bounds(
                prev,
                location,
                self.lw_spec(),
                PATH_LIMIT as int,
                2 * PATH_LIMIT as int,
            );
            crate::vector_utils::lemma_left_side_bounds(
                location,
                next,
                self.lw_spec(),
                PATH_LIMIT as int,
                2 * PATH_LIMIT as int,
            );
            crate::vector_utils::lemma_left_side_bounds(
                location,
                prev,
                self.rw_spec(),
                PATH_LIMIT as int,
                2 * PATH_LIMIT as int,
            );
            crate::vector_utils::lemma_left_side_bounds(
                next,
                location,
                self.rw_spec(),
                PATH_LIMIT as int,
                2 * PATH_LIMIT as int,
            );
        }
        let left_intersection = intersection_point(
            la.0,
            sub_vec(la.1, la.0),
            lb.1,
            sub_vec(lb.0, lb.1),
        );
        let right_intersection = intersection_point(
            ra.0,
            sub_vec(ra.1, ra.0),
            rb.1,
            sub_vec(rb.0, rb.1),
        );

        if let (Option::Some(left_vert), Option::Some(right_vert)) = (
            left_intersection,
            right_intersection,
        ) {
            let l = vertices.len();
            vertices.push(left_vert);
            vertices.push(right_vert);
            colors.push(self.color.get(index, -32768));
            colors.push(self.color.get(index, 32768));
            if l >= 2 {
                self.add_quad_indices(
                    indices,
                    (l - 2) as u32,
                    (l - 1) as u32,
                    l as u32,
                    (l + 1) as u32,
                );
            }
        }
    }
    /// When the rounded corner emits nothing: a straight or degenerate
    /// corner, a collapsed half-angle sine, or a fan direction lost to
    /// truncation.
    pub open spec fn rc_skip(self, prev: Vec2, loc: Vec2, next: Vec2, radius: int) -> bool {
        ||| orientation_of(prev, loc, next) == Orientation::Straight
        ||| self.rc_sin_half(prev, loc, next) <= 0
        ||| self.rc_rot(prev, loc, next) == (Vec2 { x: 0, y: 0 })
        ||| self.rc_out_vec(prev, loc, next, radius) == (Vec2 { x: 0, y: 0 })
    }

    /// With a zero fillet radius the fillet circle collapses onto the miter
    /// point: the corner's center is the inner offset lines' meeting point
    /// (saturated into the envelope), and every inner fan vertex equals
    /// that center exactly, as a sharp join would place it.
    pub proof fn lemma_zero_radius_collapses_to_miter(
        self,
        prev: Vec2,
        loc: Vec2,
        next: Vec2,
        resolution: int,
    )
        requires
            !self.rc_skip(prev, loc, next, 0),
        ensures
            self.rc_origo(prev, loc, next, 0) == (Vec2 {
                x: sat(self.rc_meet(prev, loc, next).x as int) as i64,
                y: sat(self.rc_meet(prev, loc, next).y as int) as i64,
            }),
            forall|i: int|
                #![trigger self.rc_pair(prev, loc, next, 0, resolution, i)]
                (if orientation_of(prev, loc, next) == Orientation::Right {
                    self.rc_pair(prev, loc, next, 0, resolution, i).1
                } else {
                    self.rc_pair(prev, loc, next, 0, resolution, i).0
                }) == self.rc_origo(prev, loc, next, 0),
    {
        reveal(FlexLine::rc_origo);
        reveal(FlexLine::rc_pair);
        let one = FIXED_ONE as int;
        let sh = self.rc_sin_half(prev, loc, next);
        let towards = normalize_spec(self.rc_rot(prev, loc, next));
        assert(tdiv(0 * one, sh) == 0);
        assert(towards.x * 0 == 0) by (nonlinear_arith);
        assert(towards.y * 0 == 0) by (nonlinear_arith);
        assert(tdiv(0, one) == 0);
        let origo = self.rc_origo(prev, loc, next, 0);
        assert(forall|i: int|
            #![trigger self.rc_pair(prev, loc, next, 0, resolution, i)]
            (if orientation_of(prev, loc, next) == Orientation::Right {
                self.rc_pair(prev, loc, next, 0, resolution, i).1
            } else {
                self.rc_pair(prev, loc, next, 0, resolution, i).0
            }) == origo) by {
            assert forall|i: int|
                #![trigger self.rc_pair(prev, loc, next, 0, resolution, i)]
                (if orientation_of(prev, loc, next) == Orientation::Right {
                    self.rc_pair(prev, loc, next, 0, resolution, i).1
                } else {
                    self.rc_pair(prev, loc, next, 0, resolution, i).0
                }) == origo by {
                let dir = self.rc_dir(prev, loc, next, 0, resolution, i);
                assert(dir.x * 0 == 0) by (nonlinear_arith);
                assert(dir.y * 0 == 0) by (nonlinear_arith);
                assert(tdiv(0, one) == 0);
                assert(sat(origo.x + tdiv(dir.x * 0, one)) == origo.x);
                assert(sat(origo.y + tdiv(dir.y * 0, one)) == origo.y);
            };
        };
    }

    /// Work out a rounded corner's frame: the fillet center, the fan's
    /// zero-angle direction, and the fan's step count and signed step angle;
    /// nothing when the corner is skipped as degenerate.
    #[verifier::rlimit(100)]
    fn rc_setup(&self, location: Vec2, prev: Vec2, next: Vec2, radius: i64, resolution: usize) -> (r:
        Option<(Vec2, Vec2, i64, i64)>)
        requires
            self.wf(),
            self.bounds_ok(),
            self.corner_style == (CornerStyle::Rounded { radius, resolution }),
            abs_int(location.x as int) <= PATH_LIMIT,
            abs_int(location.y as int) <= PATH_LIMIT,
            abs_int(prev.x as int) <= PATH_LIMIT,
            abs_int(prev.y as int) <= PATH_LIMIT,
            abs_int(next.x as int) <= PATH_LIMIT,
            abs_int(next.y as int) <= PATH_LIMIT,
        ensures
            r is Some <==> !self.rc_skip(prev, location, next, radius as int),
            r matches Some(t) ==> {
                &&& t.0 == self.rc_origo(prev, location, next, radius as int)
                &&& t.1 == self.rc_out_vec(prev, location, next, radius as int)
                &&& t.2 == self.rc_fan_count(prev, location, next, resolution as int)
                &&& t.3 == self.rc_step(prev, location, next, resolution as int)
                &&& abs_int(t.0.x as int) <= SAT_BOUND
                &&& abs_int(t.0.y as int) <= SAT_BOUND
                &&& abs_int(t.1.x as int) <= 2 * SAT_BOUND
                &&& abs_int(t.1.y as int) <= 2 * SAT_BOUND
                &&& !(t.1.x == 0 && t.1.y == 0)
                &&& 2 <= t.2 <= 1001
                &&& abs_int(t.3 as int) <= 65536
            },
    {
        let orientation = orientation_test(prev, location, next);
        if orientation == Orientation::Straight {
            return Option::None;
        }
        proof {
            crate::vector_utils::lemma_orientation_nondegenerate(prev, location, next);
        }
        let lw = self.left_width();
        let rw = self.right_width();

        let (side_a, side_b) = if orientation == Orientation::Right {
            let sa = match calc_right_side_segment(prev, location, rw) {
                Option::Some(seg) => seg,
                Option::None => {
                    return Option::None;
                },
            };
            let sb = match calc_right_side_segment(location, next, rw) {
                Option::Some(seg) => seg,
                Option::None => {
                    return Option::None;
                },
            };
            (sa, sb)
        } else {
            let sa = match calc_left_side_segment(prev, location, lw) {
                Option::Some(seg) => seg,
                Option::None => {
                    return Option::None;
                },
            };
            let sb = match calc_left_side_segment(location, next, lw) {
                Option::Some(seg) => seg,
                Option::None => {
                    return Option::None;
                },
            };
            (sa, sb)
        };
        proof {
            if orientation == Orientation::Right {
                crate::vector_utils::lemma_left_side_bounds(
                    location,
                    prev,
                    self.rw_spec(),
                    PATH_LIMIT as int,
                    2 * PATH_LIMIT as int,
                );
                crate::vector_utils::lemma_left_side_bounds(
                    next,
                    location,
                    self.rw_spec(),
                    PATH_LIMIT as int,
                    2 * PATH_LIMIT as int,
                );
            } else {
                crate::vector_utils::lemma_left_side_bounds(
                    prev,
                    location,
                    self.lw_spec(),
                    PATH_LIMIT as int,
                    2 * PATH_LIMIT as int,
                );
                crate::vector_utils::lemma_left_side_bounds(
                    location,
                    next,
                    self.lw_spec(),
                    PATH_LIMIT as int,
                    2 * PATH_LIMIT as int,
                );
            }
            assert((side_a, side_b) == self.rc_sides(prev, location, next)) by {
                reveal(FlexLine::rc_sides);
            };
            assert(v_sub(side_a.1, side_a.0) == v_sub(location, prev));
            assert(v_sub(side_b.1, side_b.0) == v_sub(next, location));
        }

        let ghost det = (location.x - prev.x) * (next.y - location.y) - (location.y - prev.y) * (
        next.x - location.x);
        let inner_angle: i64 = if orientation == Orientation::Right {
            let a = sub_vec(next, location);
            let b = sub_vec(prev, location);
            proof {
                assert(cross_of(a, b) == det) by (nonlinear_arith)
                    requires
                        cross_of(a, b) == a.x * b.y - a.y * b.x,
                        a.x == next.x - location.x,
                        a.y == next.y - location.y,
                        b.x == prev.x - location.x,
                        b.y == prev.y - location.y,
                        det == (location.x - prev.x) * (next.y - location.y) - (location.y
                            - prev.y) * (next.x - location.x),
                ;
            }
            -angle_between(a, b)
        } else {
            let a = sub_vec(location, next);
            let b = sub_vec(location, prev);
            proof {
                assert(cross_of(a, b) == det) by (nonlinear_arith)
                    requires
                        cross_of(a, b) == a.x * b.y - a.y * b.x,
                        a.x == location.x - next.x,
                        a.y == location.y - next.y,
                        b.x == location.x - prev.x,
                        b.y == location.y - prev.y,
                        det == (location.x - prev.x) * (next.y - location.y) - (location.y
                            - prev.y) * (next.x - location.x),
                ;
            }
            angle_between(a, b)
        };
        proof {
            assert(inner_angle as int == self.rc_inner_angle(prev, location, next)) by {
                reveal(FlexLine::rc_inner_angle);
            };
        }
        let corner_angle: i64 = 65536 - inner_angle;

        let meet = match intersection_point(
            side_a.0,
            sub_vec(side_a.1, side_a.0),
            side_b.1,
            sub_vec(side_b.0, side_b.1),
        ) {
            Option::Some(p) => p,
            Option::None => {
                proof {
                    let da = v_sub(side_a.1, side_a.0);
                    let db = v_sub(side_b.0, side_b.1);
                    assert(cross_of(da, db) == -det) by (nonlinear_arith)
                        requires
                            cross_of(da, db) == da.x * db.y - da.y * db.x,
                            da.x == location.x - prev.x,
                            da.y == location.y - prev.y,
                            db.x == location.x - next.x,
                            db.y == location.y - next.y,
                            det == (location.x - prev.x) * (next.y - location.y) - (location.y
                                - prev.y) * (next.x - location.x),
                    ;
                    assert(false);
                }
                return Option::None;
            },
        };
        proof {
            assert(meet == self.rc_meet(prev, location, next)) by {
                reveal(FlexLine::rc_meet);
            };
        }

        let half: i64 = if orientation == Orientation::Right {
            -(divt(inner_angle as i128, 2) as i64)
        } else {
            divt(inner_angle as i128, 2) as i64
        };
        let rot = rotate_vec(sub_vec(next, location), half);
        proof {
            assert(rot == self.rc_rot(prev, location, next)) by {
                reveal(FlexLine::rc_rot);
            };
        }
        if rot.x == 0 && rot.y == 0 {
            return Option::None;
        }
        let towards = normalize_units(rot);
        let sin_half: i64 = sin_units(divt(corner_angle as i128, 2) as i64);
        proof {
            assert(sin_half as int == self.rc_sin_half(prev, location, next)) by {
                reveal(FlexLine::rc_sin_half);
            };
        }
        if sin_half <= 0 {
            return Option::None;
        }

        proof {
            lemma_mul_bounds(radius as int, 32768, PATH_LIMIT as int, 32768);
            lemma_tdiv_abs_le(radius as int * 32768, sin_half as int, PATH_LIMIT as int * 32768);
        }
        let rf: i128 = divt(radius as i128 * 32768, sin_half as i128);
        proof {
            lemma_mul_bounds(
                towards.x as int,
                rf as int,
                FIXED_ONE as int,
                PATH_LIMIT as int * 32768,
            );
            lemma_mul_bounds(
                towards.y as int,
                rf as int,
                FIXED_ONE as int,
                PATH_LIMIT as int * 32768,
            );
            lemma_tdiv_abs_le(
                towards.x as int * rf as int,
                32768,
                FIXED_ONE as int * (PATH_LIMIT as int * 32768),
            );
            lemma_tdiv_abs_le(
                towards.y as int * rf as int,
                32768,
                FIXED_ONE as int * (PATH_LIMIT as int * 32768),
            );
        }
        let origo = Vec2 {
            x: sat_i64(meet.x as i128 + divt(towards.x as i128 * rf, 32768)),
            y: sat_i64(meet.y as i128 + divt(towards.y as i128 * rf, 32768)),
        };
        proof {
            assert(origo == self.rc_origo(prev, location, next, radius as int)) by {
                reveal(FlexLine::rc_origo);
            };
        }

        let os = if orientation == Orientation::Right {
            match calc_left_side_segment(prev, location, rw) {
                Option::Some(seg) => seg,
                Option::None => {
                    return Option::None;
                },
            }
        } else {
            match calc_right_side_segment(prev, location, lw) {
                Option::Some(seg) => seg,
                Option::None => {
                    return Option::None;
                },
            }
        };
        proof {
            if orientation == Orientation::Right {
                crate::vector_utils::lemma_left_side_bounds(
                    prev,
                    location,
                    self.rw_spec(),
                    PATH_LIMIT as int,
                    2 * PATH_LIMIT as int,
                );
            } else {
                crate::vector_utils::lemma_left_side_bounds(
                    location,
                    prev,
                    self.lw_spec(),
                    PATH_LIMIT as int,
                    2 * PATH_LIMIT as int,
                );
            }
            assert(os.0 != os.1);
        }
        let projected = project_point_onto_line(origo, os.0, os.1);
        let out_vec = sub_vec(projected, origo);
        proof {
            assert(out_vec == self.rc_out_vec(prev, location, next, radius as int)) by {
                reveal(FlexLine::rc_out_vec);
            };
        }
        if out_vec.x == 0 && out_vec.y == 0 {
            return Option::None;
        }

        proof {
            lemma_mul_bounds(resolution as int, corner_angle as int - 32768, 1000, 65536);
        }
        let raw: i64 = divt(
            resolution as i128 * (corner_angle as i128 - 32768) + 32768,
            65536,
        ) as i64;
        proof {
            lemma_tdiv_quotient_bound(
                resolution as int * (corner_angle as int - 32768) + 32768,
                65536,
                1001,
            );
            assert(resolution as int * (corner_angle as int - 32768) >= 0) by (nonlinear_arith)
                requires
                    resolution as int >= 0,
                    corner_angle as int - 32768 >= 0,
            ;
        }
        let fan_count: i64 = if raw < 2 {
            2
        } else {
            raw
        };
        proof {
            assert(fan_count as int == self.rc_fan_count(prev, location, next, resolution as int))
                by {
                reveal(FlexLine::rc_fan_count);
            };
            lemma_tdiv_abs_le(corner_angle as int - 32768, fan_count as int, 65536);
        }
        let step0: i64 = divt(corner_angle as i128 - 32768, fan_count as i128) as i64;
        let angle_step: i64 = if orientation == Orientation::Right {
            -step0
        } else {
            step0
        };
        proof {
            assert(angle_step as int == self.rc_step(prev, location, next, resolution as int)) by {
                reveal(FlexLine::rc_step);
            };
        }
        Option::Some((origo, out_vec, fan_count, angle_step))
    }

    /// Emit a rounded corner: a fan of vertex pairs sweeping the fillet arc
    /// between the two segments' outer boundaries, each consecutive pair
    /// joined by a quad. A straight or degenerate corner emits nothing.
    #[verifier::rlimit(100)]
    #[verifier::loop_isolation(false)]
    fn add_rounded_corner(
        &self,
        vertices: &mut Vec<Vec2>,
        indices: &mut Vec<u32>,
        colors: &mut Vec<Rgba>,
        index: usize,
        location: Vec2,
        prev: Vec2,
        next: Vec2,
        radius: i64,
        resolution: usize,
    )
        requires
            self.wf(),
            self.bounds_ok(),
            self.corner_style == (CornerStyle::Rounded { radius, resolution }),
            index < self.locations@.len(),
            abs_int(location.x as int) <= PATH_LIMIT,
            abs_int(location.y as int) <= PATH_LIMIT,
            abs_int(prev.x as int) <= PATH_LIMIT,
            abs_int(prev.y as int) <= PATH_LIMIT,
            abs_int(next.x as int) <= PATH_LIMIT,
            abs_int(next.y as int) <= PATH_LIMIT,
            old(vertices)@.len() <= 0x7800_0000,
        ensures
            self.rc_skip(prev, location, next, radius as int) ==> {
                &&& final(vertices)@ == old(vertices)@
                &&& final(colors)@ == old(colors)@
                &&& final(indices)@ == old(indices)@
            },
            !self.rc_skip(prev, location, next, radius as int) ==> {
                let k = self.rc_fan_count(prev, location, next, resolution as int) + 1;
                &&& final(vertices)@ == old(vertices)@ + Seq::new(
                    (2 * k) as nat,
                    |j: int|
                        if j % 2 == 0 {
                            self.rc_pair(
                                prev,
                                location,
                                next,
                                radius as int,
                                resolution as int,
                                j / 2,
                            ).0
                        } else {
                            self.rc_pair(
                                prev,
                                location,
                                next,
                                radius as int,
                                resolution as int,
                                j / 2,
                            ).1
                        },
                )
                &&& final(colors)@ == old(colors)@ + Seq::new(
                    (2 * k) as nat,
                    |j: int|
                        if j % 2 == 0 {
                            color_at_spec(self.color, index as int, -FIXED_ONE as int)
                        } else {
                            color_at_spec(self.color, index as int, FIXED_ONE as int)
                        },
                )
                &&& final(indices)@ == old(indices)@ + fan_quads(old(vertices)@.len() as int, k)
                &&& 3 <= k <= 1002
            },
    {
        let setup = self.rc_setup(location, prev, next, radius, resolution);
        let (origo, out_vec, fan_count, angle_step) = match setup {
            Option::Some(t) => t,
            Option::None => {
                return ;
            },
        };
        let orientation = orientation_test(prev, location, next);
        proof {
            assert(orientation != Orientation::Straight);
        }

        let ghost pre_v = vertices@;
        let ghost pre_c = colors@;
        let ghost pre_i = indices@;
        let ghost oldv = vertices@.len() as int;
        let ghost rad = radius as int;
        let ghost res = resolution as int;

        let mut i: i64 = 0;
        while i <= fan_count
            invariant
                0 <= i <= fan_count + 1,
                vertices@.len() == pre_v.len() + 2 * i,
                vertices@ == pre_v + Seq::new(
                    (2 * i) as nat,
                    |j: int|
                        if j % 2 == 0 {
                            self.rc_pair(prev, location, next, rad, res, j / 2).0
                        } else {
                            self.rc_pair(prev, location, next, rad, res, j / 2).1
                        },
                ),
                colors@ == pre_c + Seq::new(
                    (2 * i) as nat,
                    |j: int|
                        if j % 2 == 0 {
                            color_at_spec(self.color, index as int, -FIXED_ONE as int)
                        } else {
                            color_at_spec(self.color, index as int, FIXED_ONE as int)
                        },
                ),
                indices@ == pre_i + fan_quads(oldv, i as int),
            decreases fan_count + 1 - i,
        {
            proof {
                lemma_mul_bounds(i as int, angle_step as int, 1001, 65536);
            }
            let angle: i64 = i * angle_step;
            let rot_i = rotate_vec(out_vec, angle);
            let dir = if rot_i.x == 0 && rot_i.y == 0 {
                normalize_units(out_vec)
            } else {
                normalize_units(rot_i)
            };
            proof {
                assert(dir == self.rc_dir(prev, location, next, rad, res, i as int)) by {
                    reveal(FlexLine::rc_dir);
                };
                lemma_mul_bounds(
                    dir.x as int,
                    radius as int + self.width as int,
                    FIXED_ONE as int,
                    2 * PATH_LIMIT as int,
                );
                lemma_mul_bounds(
                    dir.y as int,
                    radius as int + self.width as int,
                    FIXED_ONE as int,
                    2 * PATH_LIMIT as int,
                );
                lemma_mul_bounds(dir.x as int, radius as int, FIXED_ONE as int, PATH_LIMIT as int);
                lemma_mul_bounds(dir.y as int, radius as int, FIXED_ONE as int, PATH_LIMIT as int);
                lemma_tdiv_abs_le(
                    dir.x as int * (radius as int + self.width as int),
                    32768,
                    FIXED_ONE as int * (2 * PATH_LIMIT as int),
                );
                lemma_tdiv_abs_le(
                    dir.y as int * (radius as int + self.width as int),
                    32768,
                    FIXED_ONE as int * (2 * PATH_LIMIT as int),
                );
                lemma_tdiv_abs_le(
                    dir.x as int * radius as int,
                    32768,
                    FIXED_ONE as int * PATH_LIMIT as int,
                );
                lemma_tdiv_abs_le(
                    dir.y as int * radius as int,
                    32768,
                    FIXED_ONE as int * PATH_LIMIT as int,
                );
            }
            let wsum: i128 = radius as i128 + self.width as i128;
            let outer = Vec2 {
                x: sat_i64(origo.x as i128 + divt(dir.x as i128 * wsum, 32768)),
                y: sat_i64(origo.y as i128 + divt(dir.y as i128 * wsum, 32768)),
            };
            let inner_vert = Vec2 {
                x: sat_i64(origo.x as i128 + divt(dir.x as i128 * (radius as i128), 32768)),
                y: sat_i64(origo.y as i128 + divt(dir.y as i128 * (radius as i128), 32768)),
            };
            proof {
                assert((if orientation == Orientation::Right {
                    (outer, inner_vert)
                } else {
                    (inner_vert, outer)
                }) == self.rc_pair(prev, location, next, rad, res, i as int)) by {
                    reveal(FlexLine::rc_pair);
                };
            }
            let l = vertices.len();
            if orientation == Orientation::Right {
                vertices.push(outer);
                vertices.push(inner_vert);
            } else {
                vertices.push(inner_vert);
                vertices.push(outer);
            }
            colors.push(self.color.get(index, -32768));
            colors.push(self.color.get(index, 32768));
            if l >= 2 {
                self.add_quad_indices(
                    indices,
                    (l - 2) as u32,
                    (l - 1) as u32,
                    l as u32,
                    (l + 1) as u32,
                );
            }
            proof {
                let f = |j: int|
                    if j % 2 == 0 {
                        self.rc_pair(prev, location, next, rad, res, j / 2).0
                    } else {
                        self.rc_pair(prev, location, next, rad, res, j / 2).1
                    };
                assert(vertices@ =~= pre_v + Seq::new((2 * (i + 1)) as nat, f));
                let g = |j: int|
                    if j % 2 == 0 {
                        color_at_spec(self.color, index as int, -FIXED_ONE as int)
                    } else {
                        color_at_spec(self.color, index as int, FIXED_ONE as int)
                    };
                assert(colors@ =~= pre_c + Seq::new((2 * (i + 1)) as nat, g));
                assert(fan_quads(oldv, i as int + 1) == fan_quads(oldv, i as int) + quad_joining(
                    oldv + 2 * i as int,
                ));
                assert(l as int == oldv + 2 * i as int);
                assert(indices@ =~= pre_i + fan_quads(oldv, i as int + 1));
            }
            i = i + 1;
        }
    }

    /// How many interior fan vertices a rounded cap gets for a given
    /// resolution: half the full-circle resolution, rounded to the nearest
    /// count, less the two boundary vertices, and never fewer than one.
    pub open spec fn cap_tri_count(resolution: int) -> int {
        let t = tdiv(resolution + 1, 2) - 2;
        if t < 1 {
            1
        } else {
            t
        }
    }

    /// The `i`-th interior vertex of a cap fan (for `i` in `1..=t`): the
    /// perpendicular of the segment direction, normalized, swept by `i`
    /// steps of a semicircle split into `t + 1` gaps, scaled by half the
    /// stroke width and placed around the cap origin.
    #[verifier::opaque]
    pub open spec fn cap_vert_spec(origo: Vec2, seg: Vec2, width: int, t: int, i: int) -> Vec2 {
        let inc = tdiv(HALF_TURN as int, t + 1);
        let dir = rotate_spec(normalize_spec(perp_spec(seg)), i * inc);
        let hw = tdiv(width, 2);
        let one = FIXED_ONE as int;
        Vec2 {
            x: sat(origo.x + tdiv(dir.x * hw, one)) as i64,
            y: sat(origo.y + tdiv(dir.y * hw, one)) as i64,
        }
    }

    /// The lateral coordinate of the `i`-th cap fan vertex: the sine of its
    /// sweep angle less a quarter turn, mirrored by the cap's side factor so
    /// the blend runs from the left boundary to the right one.
    #[verifier::opaque]
    pub open spec fn cap_grad_spec(t: int, i: int, side: int) -> int {
        sin_spec(i * tdiv(HALF_TURN as int, t + 1) - QUARTER_TURN) * side
    }

    /// Push a cap's interior fan vertices and their colors: `t` vertices
    /// sweeping a semicircle of half the stroke width around the cap origin.
    #[verifier::rlimit(100)]
    #[verifier::loop_isolation(false)]
    fn cap_fan(
        &self,
        vertices: &mut Vec<Vec2>,
        colors: &mut Vec<Rgba>,
        origo: Vec2,
        segment_vec: Vec2,
        index: usize,
        side_factor: i64,
        t: i64,
    )
        requires
            self.wf(),
            self.bounds_ok(),
            index < self.locations@.len(),
            abs_int(origo.x as int) <= 4 * PATH_LIMIT,
            abs_int(origo.y as int) <= 4 * PATH_LIMIT,
            abs_int(segment_vec.x as int) <= 2 * PATH_LIMIT,
            abs_int(segment_vec.y as int) <= 2 * PATH_LIMIT,
            !(segment_vec.x == 0 && segment_vec.y == 0),
            side_factor == 1 || side_factor == -1,
            1 <= t <= 498,
            old(vertices)@.len() <= 0x7910_0000,
        ensures
            final(vertices)@ == old(vertices)@ + Seq::new(
                t as nat,
                |i: int| Self::cap_vert_spec(origo, segment_vec, self.width as int, t as int, i + 1),
            ),
            final(colors)@ == old(colors)@ + Seq::new(
                t as nat,
                |i: int|
                    color_at_spec(
                        self.color,
                        index as int,
                        Self::cap_grad_spec(t as int, i + 1, side_factor as int),
                    ),
            ),
    {
        let fan_vec = normalize_units(Vec2 { x: -segment_vec.y, y: segment_vec.x });
        let inc: i64 = divt(32768, t as i128 + 1) as i64;
        proof {
            lemma_tdiv_abs_le(32768, t as int + 1, 32768);
        }
        let hw: i64 = self.width / 2;

        let ghost pre_v = vertices@;
        let ghost pre_c = colors@;
        let ghost o_sp = origo;
        let ghost seg_sp = segment_vec;

        let mut i: i64 = 1;
        while i <= t
            invariant
                1 <= i <= t + 1,
                vertices@.len() == pre_v.len() + (i - 1),
                vertices@ == pre_v + Seq::new(
                    (i - 1) as nat,
                    |j: int| Self::cap_vert_spec(o_sp, seg_sp, self.width as int, t as int, j + 1),
                ),
                colors@ == pre_c + Seq::new(
                    (i - 1) as nat,
                    |j: int|
                        color_at_spec(
                            self.color,
                            index as int,
                            Self::cap_grad_spec(t as int, j + 1, side_factor as int),
                        ),
                ),
            decreases t + 1 - i,
        {
            proof {
                lemma_mul_bounds(i as int, inc as int, 500, 32768);
            }
            let angle: i64 = i * inc;
            let dir = rotate_vec(fan_vec, angle);
            proof {
                lemma_mul_bounds(dir.x as int, hw as int, 2 * FIXED_ONE as int, PATH_LIMIT as int);
                lemma_mul_bounds(dir.y as int, hw as int, 2 * FIXED_ONE as int, PATH_LIMIT as int);
                lemma_tdiv_abs_le(
                    dir.x as int * hw as int,
                    32768,
                    2 * FIXED_ONE as int * PATH_LIMIT as int,
                );
                lemma_tdiv_abs_le(
                    dir.y as int * hw as int,
                    32768,
                    2 * FIXED_ONE as int * PATH_LIMIT as int,
                );
            }
            let vert = Vec2 {
                x: sat_i64(origo.x as i128 + divt(dir.x as i128 * hw as i128, 32768)),
                y: sat_i64(origo.y as i128 + divt(dir.y as i128 * hw as i128, 32768)),
            };
            proof {
                assert(vert == Self::cap_vert_spec(
                    o_sp,
                    seg_sp,
                    self.width as int,
                    t as int,
                    i as int,
                )) by {
                    reveal(FlexLine::cap_vert_spec);
                };
            }
            vertices.push(vert);
            let g: i64 = sin_units(angle - 16384) * side_factor;
            proof {
                assert(g as int == Self::cap_grad_spec(t as int, i as int, side_factor as int))
                    by {
                    reveal(FlexLine::cap_grad_spec);
                };
                assert(abs_int(g as int) <= FIXED_ONE);
            }
            colors.push(self.color.get(index, g));
            proof {
                let fv = |j: int|
                    Self::cap_vert_spec(o_sp, seg_sp, self.width as int, t as int, j + 1);
                assert(vertices@ =~= pre_v + Seq::new(i as nat, fv));
                let fc = |j: int|
                    color_at_spec(
                        self.color,
                        index as int,
                        Self::cap_grad_spec(t as int, j + 1, side_factor as int),
                    );
                assert(colors@ =~= pre_c + Seq::new(i as nat, fc));
            }
            i = i + 1;
        }
    }

    /// Emit a rounded cap at one open end: the cap origin vertex, `t`
    /// interior fan vertices sweeping a semicircle of half the stroke width,
    /// and the triangles stitching them to the end's two boundary vertices.
    /// A sharp-style stroke gets no cap.
    #[verifier::rlimit(100)]
    #[verifier::loop_isolation(false)]
    fn add_cap(
        &self,
        vertices: &mut Vec<Vec2>,
        indices: &mut Vec<u32>,
        colors: &mut Vec<Rgba>,
        origo: Vec2,
        segment_vec: Vec2,
        index_a: u32,
        index_b: u32,
        index: usize,
        side_factor: i64,
    )
        requires
            self.wf(),
            self.bounds_ok(),
            index < self.locations@.len(),
            abs_int(origo.x as int) <= 4 * PATH_LIMIT,
            abs_int(origo.y as int) <= 4 * PATH_LIMIT,
            abs_int(segment_vec.x as int) <= 2 * PATH_LIMIT,
            abs_int(segment_vec.y as int) <= 2 * PATH_LIMIT,
            !(segment_vec.x == 0 && segment_vec.y == 0),
            side_factor == 1 || side_factor == -1,
            old(vertices)@.len() <= 0x7900_0000,
        ensures
            self.corner_style is Sharp ==> {
                &&& final(vertices)@ == old(vertices)@
                &&& final(colors)@ == old(colors)@
                &&& final(indices)@ == old(indices)@
            },
            self.corner_style matches CornerStyle::Rounded { resolution, .. } ==> {
                let t = Self::cap_tri_count(resolution as int);
                let o = old(vertices)@.len() as int;
                let f = o + 1;
                &&& final(vertices)@ == old(vertices)@.push(origo) + Seq::new(
                    t as nat,
                    |i: int| Self::cap_vert_spec(origo, segment_vec, self.width as int, t, i + 1),
                )
                &&& final(colors)@ == old(colors)@.push(
                    color_at_spec(self.color, index as int, 0),
                ) + Seq::new(
                    t as nat,
                    |i: int|
                        color_at_spec(
                            self.color,
                            index as int,
                            Self::cap_grad_spec(t, i + 1, side_factor as int),
                        ),
                )
                &&& final(indices)@ == old(indices)@ + seq![
                    o as u32,
                    f as u32,
                    index_a,
                    o as u32,
                    (f + t - 1) as u32,
                    index_b,
                ] + cap_mid_tris(o, f, t - 1)
            },
    {
        let resolution: usize = match self.corner_style {
            CornerStyle::Rounded { resolution, .. } => resolution,
            CornerStyle::Sharp => {
                return ;
            },
        };
        let half_res: usize = (resolution + 1) / 2;
        let t: i64 = if half_res <= 3 {
            1
        } else {
            (half_res - 2) as i64
        };
        proof {
            assert(t as int == Self::cap_tri_count(resolution as int));
            assert(1 <= t <= 498);
        }
        let origo_idx: u32 = vertices.len() as u32;
        vertices.push(origo);
        colors.push(self.color.get(index, 0));
        let first_vertex_idx: u32 = vertices.len() as u32;

        self.cap_fan(vertices, colors, origo, segment_vec, index, side_factor, t);

        indices.push(origo_idx);
        indices.push(first_vertex_idx);
        indices.push(index_a);

        indices.push(origo_idx);
        indices.push(first_vertex_idx + (t - 1) as u32);
        indices.push(index_b);

        let ghost pre_i = indices@;
        let ghost f_sp = first_vertex_idx as int;
        let ghost o_isp = origo_idx as int;
        if t > 1 {
            let mut m: i64 = 1;
            while m <= t - 1
                invariant
                    1 <= m <= t,
                    indices@ == pre_i + cap_mid_tris(o_isp, f_sp, (m - 1) as int),
                decreases t - m,
            {
                indices.push(origo_idx);
                indices.push(first_vertex_idx + m as u32);
                indices.push(first_vertex_idx + (m - 1) as u32);
                proof {
                    assert(indices@ =~= pre_i + cap_mid_tris(o_isp, f_sp, m as int));
                }
                m = m + 1;
            }
        }
        proof {
            assert(cap_mid_tris(o_isp, f_sp, 0) =~= Seq::<u32>::empty());
            assert(final(vertices)@ == old(vertices)@.push(origo) + Seq::new(
                (t as int) as nat,
                |i: int|
                    Self::cap_vert_spec(origo, segment_vec, self.width as int, t as int, i + 1),
            ));
            assert(final(indices)@ =~= old(indices)@ + seq![
                o_isp as u32,
                f_sp as u32,
                index_a,
                o_isp as u32,
                (f_sp + t - 1) as u32,
                index_b,
            ] + cap_mid_tris(o_isp, f_sp, t as int - 1));
        }
    }

    /// Emit an open path's first boundary pair: the side offsets of the
    /// first segment at its start. A degenerate first segment emits nothing.
    #[verifier::rlimit(60)]
    fn add_start_pair(
        &self,
        vertices: &mut Vec<Vec2>,
        colors: &mut Vec<Rgba>,
        index: usize,
    )
        requires
            self.wf(),
            self.bounds_ok(),
            index + 1 < self.locations@.len(),
        ensures
            ({
                let loc = self.locations@[index as int];
                let next = self.locations@[index as int + 1];
                if loc != next {
                    &&& final(vertices)@ == old(vertices)@.push(
                        left_side_spec(loc, next, self.lw_spec()).0,
                    ).push(right_side_spec(loc, next, self.rw_spec()).0)
                    &&& final(colors)@ == old(colors)@.push(
                        color_at_spec(self.color, index as int, -FIXED_ONE as int),
                    ).push(color_at_spec(self.color, index as int, FIXED_ONE as int))
                } else {
                    &&& final(vertices)@ == old(vertices)@
                    &&& final(colors)@ == old(colors)@
                }
            }),
    {
        let location = self.locations[index];
        let next = self.locations[index + 1];
        let lw = self.left_width();
        let rw = self.right_width();
        let left_seg = match calc_left_side_segment(location, next, lw) {
            Option::Some(seg) => seg,
            Option::None => {
                return ;
            },
        };
        let right_seg = match calc_right_side_segment(location, next, rw) {
            Option::Some(seg) => seg,
            Option::None => {
                return ;
            },
        };
        vertices.push(left_seg.0);
        vertices.push(right_seg.0);
        colors.push(self.color.get(index, -32768));
        colors.push(self.color.get(index, 32768));
    }

    /// Emit an open path's last boundary pair: the side offsets of the last
    /// segment at its end, joined by a quad to the pair before them. A
    /// degenerate last segment emits nothing.
    #[verifier::rlimit(60)]
    fn add_end_pair(
        &self,
        vertices: &mut Vec<Vec2>,
        indices: &mut Vec<u32>,
        colors: &mut Vec<Rgba>,
        index: usize,
    )
        requires
            self.wf(),
            self.bounds_ok(),
            1 <= index < self.locations@.len(),
            old(vertices)@.len() <= 0x7900_0000,
        ensures
            ({
                let prev = self.locations@[index as int - 1];
                let loc = self.locations@[index as int];
                if prev != loc {
                    &&& final(vertices)@ == old(vertices)@.push(
                        left_side_spec(prev, loc, self.lw_spec()).1,
                    ).push(right_side_spec(prev, loc, self.rw_spec()).1)
                    &&& final(colors)@ == old(colors)@.push(
                        color_at_spec(self.color, index as int, -FIXED_ONE as int),
                    ).push(color_at_spec(self.color, index as int, FIXED_ONE as int))
                    &&& final(indices)@ == old(indices)@ + quad_joining(
                        old(vertices)@.len() as int,
                    )
                } else {
                    &&& final(vertices)@ == old(vertices)@
                    &&& final(colors)@ == old(colors)@
                    &&& final(indices)@ == old(indices)@
                }
            }),
    {
        let location = self.locations[index];
        let prev = self.locations[index - 1];
        let lw = self.left_width();
        let rw = self.right_width();
        let left_seg = match calc_left_side_segment(prev, location, lw) {
            Option::Some(seg) => seg,
            Option::None => {
                return ;
            },
        };
        let right_seg = match calc_right_side_segment(prev, location, rw) {
            Option::Some(seg) => seg,
            Option::None => {
                return ;
            },
        };
        let l = vertices.len();
        vertices.push(left_seg.1);
        vertices.push(right_seg.1);
        colors.push(self.color.get(index, -32768));
        colors.push(self.color.get(index, 32768));
        if l >= 2 {
            self.add_quad_indices(
                indices,
                (l - 2) as u32,
                (l - 1) as u32,
                l as u32,
                (l + 1) as u32,
            );
        }
    }

    /// One sharp corner: exactly the miter pair and quad of
    /// `sharp_verts_spec`, wrapped up with the structural facts the mesh
    /// assembler tracks.
    #[verifier::rlimit(100)]
    fn sharp_corner_step(
        &self,
        vertices: &mut Vec<Vec2>,
        indices: &mut Vec<u32>,
        colors: &mut Vec<Rgba>,
        index: usize,
        prev_idx: usize,
        next_idx: usize,
    )
        requires
            self.wf(),
            self.bounds_ok(),
            self.corner_style is Sharp,
            index < self.locations@.len(),
            prev_idx < self.locations@.len(),
            next_idx < self.locations@.len(),
            old(vertices)@.len() <= 0x7800_0000,
        ensures
            final(vertices)@.len() >= old(vertices)@.len(),
            final(colors)@.len() >= old(colors)@.len(),
            final(indices)@.len() >= old(indices)@.len(),
            final(vertices)@.subrange(0, old(vertices)@.len() as int) == old(vertices)@,
            final(colors)@.subrange(0, old(colors)@.len() as int) == old(colors)@,
            final(indices)@.subrange(0, old(indices)@.len() as int) == old(indices)@,
            final(vertices)@.len() - old(vertices)@.len()
                == final(colors)@.len() - old(colors)@.len(),
            (final(vertices)@.len() - old(vertices)@.len()) % 2 == 0,
            final(vertices)@.len() <= old(vertices)@.len() + 2004,
            (final(indices)@.len() - old(indices)@.len()) % 6 == 0,
            final(indices)@.len() > old(indices)@.len()
                ==> final(vertices)@.len() >= old(vertices)@.len() + 2,
            final(vertices)@.len() > old(vertices)@.len() && old(vertices)@.len() >= 2
                ==> final(indices)@.len() > old(indices)@.len(),
            final(indices)@.len() > old(indices)@.len() ==> {
                &&& final(vertices)@.len() >= 4
                &&& final(indices)@.len() >= 6
                &&& final(indices)@.subrange(
                    final(indices)@.len() - 6,
                    final(indices)@.len() as int,
                ) == quad_joining(final(vertices)@.len() - 2)
                &&& forall|m: int|
                    old(indices)@.len() <= m < final(indices)@.len() - 6 ==> (
                    #[trigger] final(indices)@[m]) < final(vertices)@.len() - 2
            },
            match self.sharp_verts_spec(
                self.locations@[prev_idx as int],
                self.locations@[index as int],
                self.locations@[next_idx as int],
            ) {
                Option::Some(pair) => {
                    &&& final(vertices)@ == old(vertices)@ + seq![pair.0, pair.1]
                    &&& final(colors)@ == old(colors)@ + seq![
                        color_at_spec(self.color, index as int, -FIXED_ONE as int),
                        color_at_spec(self.color, index as int, FIXED_ONE as int),
                    ]
                    &&& final(indices)@ == old(indices)@ + quad_joining(old(vertices)@.len() as int)
                },
                Option::None => {
                    &&& final(vertices)@ == old(vertices)@
                    &&& final(colors)@ == old(colors)@
                    &&& final(indices)@ == old(indices)@
                },
            },
    {
        let ghost oldv = vertices@.len() as int;
        let ghost oldi = indices@.len() as int;
        self.add_sharp_corner(vertices, indices, colors, index, prev_idx, next_idx);
        proof {
            if vertices@.len() > oldv {
                lemma_quad_append_structure(old(indices)@, indices@, oldv, vertices@.len() as int);
            }
            assert(vertices@.subrange(0, oldv) =~= old(vertices)@);
            assert(colors@.subrange(0, old(colors)@.len() as int) =~= old(colors)@);
            assert(indices@.subrange(0, oldi) =~= old(indices)@);
        }
    }

    /// One rounded corner: exactly the fan pairs and quads of `rc_pair`
    /// and `fan_quads`, wrapped up with the structural facts the mesh
    /// assembler tracks.
    #[verifier::rlimit(100)]
    fn rounded_corner_step(
        &self,
        vertices: &mut Vec<Vec2>,
        indices: &mut Vec<u32>,
        colors: &mut Vec<Rgba>,
        index: usize,
        prev_idx: usize,
        next_idx: usize,
        radius: i64,
        resolution: usize,
    )
        requires
            self.wf(),
            self.bounds_ok(),
            self.corner_style == (CornerStyle::Rounded { radius, resolution }),
            index < self.locations@.len(),
            prev_idx < self.locations@.len(),
            next_idx < self.locations@.len(),
            old(vertices)@.len() <= 0x7800_0000,
        ensures
            final(vertices)@.len() >= old(vertices)@.len(),
            final(colors)@.len() >= old(colors)@.len(),
            final(indices)@.len() >= old(indices)@.len(),
            final(vertices)@.subrange(0, old(vertices)@.len() as int) == old(vertices)@,
            final(colors)@.subrange(0, old(colors)@.len() as int) == old(colors)@,
            final(indices)@.subrange(0, old(indices)@.len() as int) == old(indices)@,
            final(vertices)@.len() - old(vertices)@.len()
                == final(colors)@.len() - old(colors)@.len(),
            (final(vertices)@.len() - old(vertices)@.len()) % 2 == 0,
            final(vertices)@.len() <= old(vertices)@.len() + 2004,
            (final(indices)@.len() - old(indices)@.len()) % 6 == 0,
            final(indices)@.len() > old(indices)@.len()
                ==> final(vertices)@.len() >= old(vertices)@.len() + 2,
            final(vertices)@.len() > old(vertices)@.len() && old(vertices)@.len() >= 2
                ==> final(indices)@.len() > old(indices)@.len(),
            final(indices)@.len() > old(indices)@.len() ==> {
                &&& final(vertices)@.len() >= 4
                &&& final(indices)@.len() >= 6
                &&& final(indices)@.subrange(
                    final(indices)@.len() - 6,
                    final(indices)@.len() as int,
                ) == quad_joining(final(vertices)@.len() - 2)
                &&& forall|m: int|
                    old(indices)@.len() <= m < final(indices)@.len() - 6 ==> (
                    #[trigger] final(indices)@[m]) < final(vertices)@.len() - 2
            },
            ({
                let prev = self.locations@[prev_idx as int];
                let loc = self.locations@[index as int];
                let next = self.locations@[next_idx as int];
                if self.rc_skip(prev, loc, next, radius as int) {
                    &&& final(vertices)@ == old(vertices)@
                    &&& final(colors)@ == old(colors)@
                    &&& final(indices)@ == old(indices)@
                } else {
                    let k = self.rc_fan_count(prev, loc, next, resolution as int) + 1;
                    &&& final(vertices)@ == old(vertices)@ + Seq::new(
                        (2 * k) as nat,
                        |j: int|
                            if j % 2 == 0 {
                                self.rc_pair(prev, loc, next, radius as int, resolution as int, j / 2).0
                            } else {
                                self.rc_pair(prev, loc, next, radius as int, resolution as int, j / 2).1
                            },
                    )
                    &&& final(colors)@ == old(colors)@ + Seq::new(
                        (2 * k) as nat,
                        |j: int|
                            if j % 2 == 0 {
                                color_at_spec(self.color, index as int, -FIXED_ONE as int)
                            } else {
                                color_at_spec(self.color, index as int, FIXED_ONE as int)
                            },
                    )
                    &&& final(indices)@ == old(indices)@ + fan_quads(old(vertices)@.len() as int, k)
                }
            }),
    {
        let ghost oldv = vertices@.len() as int;
        let ghost oldi = indices@.len() as int;
        let location = self.locations[index];
        let prev = self.locations[prev_idx];
        let next = self.locations[next_idx];
        proof {
            assert(abs_int(self.locations@[index as int].x as int) <= PATH_LIMIT);
            assert(abs_int(self.locations@[index as int].y as int) <= PATH_LIMIT);
            assert(abs_int(self.locations@[prev_idx as int].x as int) <= PATH_LIMIT);
            assert(abs_int(self.locations@[prev_idx as int].y as int) <= PATH_LIMIT);
            assert(abs_int(self.locations@[next_idx as int].x as int) <= PATH_LIMIT);
            assert(abs_int(self.locations@[next_idx as int].y as int) <= PATH_LIMIT);
        }
        self.add_rounded_corner(
            vertices,
            indices,
            colors,
            index,
            location,
            prev,
            next,
            radius,
            resolution,
        );
        proof {
            if !self.rc_skip(prev, location, next, radius as int) {
                let k = self.rc_fan_count(prev, location, next, resolution as int) + 1;
                lemma_fan_append_structure(
                    old(indices)@,
                    indices@,
                    oldv,
                    vertices@.len() as int,
                    k,
                );
            }
            assert(vertices@.subrange(0, oldv) =~= old(vertices)@);
            assert(colors@.subrange(0, old(colors)@.len() as int) =~= old(colors)@);
            assert(indices@.subrange(0, oldi) =~= old(indices)@);
        }
    }

    /// The wrapped predecessor of a path index: the previous index for a
    /// connected path or an interior index, nothing at an open start.
    pub open spec fn prev_of(self, i: int) -> Option<int> {
        if self.is_connected_spec() || i > 0 {
            Option::Some((i + self.locations@.len() - 1) % self.locations@.len() as int)
        } else {
            Option::None
        }
    }

    /// The wrapped successor of a path index: the next index for a
    /// connected path or an interior index, nothing at an open end.
    pub open spec fn next_of(self, i: int) -> Option<int> {
        if self.is_connected_spec() || i + 1 < self.locations@.len() {
            Option::Some((i + 1) % self.locations@.len() as int)
        } else {
            Option::None
        }
    }

    /// The vertices path index `i` contributes to the mesh: an open start's
    /// or end's side-offset pair, or an interior corner's miter pair or
    /// rounded fan; nothing when the corner is degenerate.
    #[verifier::opaque]
    pub open spec fn corner_verts(self, i: int) -> Seq<Vec2> {
        let loc = self.locations@[i];
        if self.prev_of(i) is None {
            let next = self.locations@[i + 1];
            if loc == next {
                Seq::empty()
            } else {
                seq![
                    left_side_spec(loc, next, self.lw_spec()).0,
                    right_side_spec(loc, next, self.rw_spec()).0,
                ]
            }
        } else if self.next_of(i) is None {
            let prev = self.locations@[i - 1];
            if prev == loc {
                Seq::empty()
            } else {
                seq![
                    left_side_spec(prev, loc, self.lw_spec()).1,
                    right_side_spec(prev, loc, self.rw_spec()).1,
                ]
            }
        } else {
            let prev = self.locations@[self.prev_of(i)->Some_0];
            let next = self.locations@[self.next_of(i)->Some_0];
            match self.corner_style {
                CornerStyle::Sharp => match self.sharp_verts_spec(prev, loc, next) {
                    Option::Some(pair) => seq![pair.0, pair.1],
                    Option::None => Seq::empty(),
                },
                CornerStyle::Rounded { radius, resolution } => {
                    if self.rc_skip(prev, loc, next, radius as int) {
                        Seq::empty()
                    } else {
                        Seq::new(
                            (2 * (self.rc_fan_count(prev, loc, next, resolution as int)
                                + 1)) as nat,
                            |j: int|
                                if j % 2 == 0 {
                                    self.rc_pair(
                                        prev,
                                        loc,
                                        next,
                                        radius as int,
                                        resolution as int,
                                        j / 2,
                                    ).0
                                } else {
                                    self.rc_pair(
                                        prev,
                                        loc,
                                        next,
                                        radius as int,
                                        resolution as int,
                                        j / 2,
                                    ).1
                                },
                        )
                    }
                },
            }
        }
    }

    /// The colors those vertices receive: the stroke coloring sampled at
    /// the left and right edges, alternating with the vertex pairs.
    #[verifier::opaque]
    pub open spec fn corner_cols(self, i: int) -> Seq<Rgba> {
        Seq::new(
            self.corner_verts(i).len(),
            |j: int|
                if j % 2 == 0 {
                    color_at_spec(self.color, i, -FIXED_ONE as int)
                } else {
                    color_at_spec(self.color, i, FIXED_ONE as int)
                },
        )
    }

    /// The triangle indices path index `i` contributes, with its first new
    /// vertex landing at slot `base`: one quad per emitted pair, each
    /// joining it to the pair before it; an open start emits none.
    #[verifier::opaque]
    pub open spec fn corner_idx(self, i: int, base: int) -> Seq<u32> {
        if self.prev_of(i) is None {
            Seq::empty()
        } else if self.next_of(i) is None {
            if self.locations@[i - 1] == self.locations@[i] {
                Seq::empty()
            } else {
                quad_joining(base)
            }
        } else {
            let prev = self.locations@[self.prev_of(i)->Some_0];
            let loc = self.locations@[i];
            let next = self.locations@[self.next_of(i)->Some_0];
            match self.corner_style {
                CornerStyle::Sharp => if self.sharp_verts_spec(prev, loc, next) is Some {
                    quad_joining(base)
                } else {
                    Seq::empty()
                },
                CornerStyle::Rounded { radius, resolution } => {
                    if self.rc_skip(prev, loc, next, radius as int) {
                        Seq::empty()
                    } else {
                        fan_quads(
                            base,
                            self.rc_fan_count(prev, loc, next, resolution as int) + 1,
                        )
                    }
                },
            }
        }
    }

    /// Emit whatever one path index contributes to the mesh: the open
    /// start's or end's boundary pair, or an interior corner in the current
    /// corner style. The buffers grow by exactly `corner_verts`,
    /// `corner_cols` and `corner_idx`; structurally, vertex and color
    /// growth match, pairs arrive with their joining quads, and every new
    /// index stays below the vertex count, with the newest quad referencing
    /// exactly the last two pairs.
    #[verifier::rlimit(100)]
    fn add_corner(
        &self,
        index: usize,
        vertices: &mut Vec<Vec2>,
        indices: &mut Vec<u32>,
        colors: &mut Vec<Rgba>,
    )
        requires
            self.wf(),
            self.bounds_ok(),
            index < self.locations@.len(),
            old(vertices)@.len() <= 0x7800_0000,
            !self.is_connected_spec() && index == 0 ==> old(vertices)@.len() == 0,
        ensures
            final(vertices)@.len() >= old(vertices)@.len(),
            final(colors)@.len() >= old(colors)@.len(),
            final(indices)@.len() >= old(indices)@.len(),
            final(vertices)@.subrange(0, old(vertices)@.len() as int) == old(vertices)@,
            final(colors)@.subrange(0, old(colors)@.len() as int) == old(colors)@,
            final(indices)@.subrange(0, old(indices)@.len() as int) == old(indices)@,
            final(vertices)@.len() - old(vertices)@.len()
                == final(colors)@.len() - old(colors)@.len(),
            (final(vertices)@.len() - old(vertices)@.len()) % 2 == 0,
            final(vertices)@.len() <= old(vertices)@.len() + 2004,
            (final(indices)@.len() - old(indices)@.len()) % 6 == 0,
            final(indices)@.len() > old(indices)@.len()
                ==> final(vertices)@.len() >= old(vertices)@.len() + 2,
            final(vertices)@.len() > old(vertices)@.len() && old(vertices)@.len() >= 2
                ==> final(indices)@.len() > old(indices)@.len(),
            final(indices)@.len() > old(indices)@.len() ==> {
                &&& final(vertices)@.len() >= 4
                &&& final(indices)@.len() >= 6
                &&& final(indices)@.subrange(
                    final(indices)@.len() - 6,
                    final(indices)@.len() as int,
                ) == quad_joining(final(vertices)@.len() - 2)
                &&& forall|m: int|
                    old(indices)@.len() <= m < final(indices)@.len() - 6 ==> (
                    #[trigger] final(indices)@[m]) < final(vertices)@.len() - 2
            },
            !self.is_connected_spec() && index == 0 && self.locations@[0] != self.locations@[1]
                ==> {
                let loc0 = self.locations@[0];
                let loc1 = self.locations@[1];
                &&& final(vertices)@ == old(vertices)@.push(
                    left_side_spec(loc0, loc1, self.lw_spec()).0,
                ).push(right_side_spec(loc0, loc1, self.rw_spec()).0)
                &&& final(colors)@ == old(colors)@.push(
                    color_at_spec(self.color, 0, -FIXED_ONE as int),
                ).push(color_at_spec(self.color, 0, FIXED_ONE as int))
                &&& final(indices)@ == old(indices)@
            },
            final(vertices)@ == old(vertices)@ + self.corner_verts(index as int),
            final(colors)@ == old(colors)@ + self.corner_cols(index as int),
            final(indices)@ == old(indices)@ + self.corner_idx(
                index as int,
                old(vertices)@.len() as int,
            ),
    {
        let ghost oldv = vertices@.len() as int;
        let ghost oldi = indices@.len() as int;
        let location = self.locations[index];
        let prev_idx = match self.get_prev_idx(index) {
            Option::Some(p) => p,
            Option::None => {
                self.add_start_pair(vertices, colors, index);
                proof {
                    reveal(FlexLine::corner_verts);
                    reveal(FlexLine::corner_cols);
                    reveal(FlexLine::corner_idx);
                    assert(vertices@.subrange(0, oldv) =~= old(vertices)@);
                    assert(colors@.subrange(0, old(colors)@.len() as int) =~= old(colors)@);
                    assert(indices@.subrange(0, oldi) =~= old(indices)@);
                    assert(vertices@ =~= old(vertices)@ + self.corner_verts(index as int));
                    assert(colors@ =~= old(colors)@ + self.corner_cols(index as int));
                    assert(indices@ =~= old(indices)@ + self.corner_idx(index as int, oldv));
                }
                return ;
            },
        };
        let next_idx = match self.get_next_idx(index) {
            Option::Some(n) => n,
            Option::None => {
                self.add_end_pair(vertices, indices, colors, index);
                proof {
                    if vertices@.len() > oldv {
                        lemma_quad_append_structure(
                            old(indices)@,
                            indices@,
                            oldv,
                            vertices@.len() as int,
                        );
                    }
                    reveal(FlexLine::corner_verts);
                    reveal(FlexLine::corner_cols);
                    reveal(FlexLine::corner_idx);
                    assert(vertices@.subrange(0, oldv) =~= old(vertices)@);
                    assert(colors@.subrange(0, old(colors)@.len() as int) =~= old(colors)@);
                    assert(indices@.subrange(0, oldi) =~= old(indices)@);
                    assert(vertices@ =~= old(vertices)@ + self.corner_verts(index as int));
                    assert(colors@ =~= old(colors)@ + self.corner_cols(index as int));
                    assert(indices@ =~= old(indices)@ + self.corner_idx(index as int, oldv));
                }
                return ;
            },
        };

        match self.corner_style {
            CornerStyle::Sharp => {
                self.sharp_corner_step(vertices, indices, colors, index, prev_idx, next_idx);
            },
            CornerStyle::Rounded { radius, resolution } => {
                self.rounded_corner_step(
                    vertices,
                    indices,
                    colors,
                    index,
                    prev_idx,
                    next_idx,
                    radius,
                    resolution,
                );
            },
        }
        proof {
            reveal(FlexLine::corner_verts);
            reveal(FlexLine::corner_cols);
            reveal(FlexLine::corner_idx);
            assert(self.prev_of(index as int) == Option::Some(prev_idx as int));
            assert(self.next_of(index as int) == Option::Some(next_idx as int));
            assert(vertices@ =~= old(vertices)@ + self.corner_verts(index as int));
            assert(colors@ =~= old(colors)@ + self.corner_cols(index as int));
            assert(indices@ =~= old(indices)@ + self.corner_idx(index as int, oldv));
        }
    }

    /// The cap origin at one open end of the segment `a -> b`: the
    /// truncated midpoint of the two boundary offset points at `b` when the
    /// cap closes the segment's far end, at `a` when it closes its start.
    pub open spec fn cap_origo_spec(self, a: Vec2, b: Vec2, at_end: bool) -> Vec2 {
        let l = left_side_spec(a, b, self.lw_spec());
        let r = right_side_spec(a, b, self.rw_spec());
        let el = if at_end { l.1 } else { l.0 };
        let er = if at_end { r.1 } else { r.0 };
        Vec2 { x: tdiv(el.x + er.x, 2) as i64, y: tdiv(el.y + er.y, 2) as i64 }
    }

    /// The vertices one rounded cap appends: the cap origin, then its
    /// interior fan swept around the end's inward segment direction; a
    /// sharp stroke or a degenerate end segment appends none.
    #[verifier::opaque]
    pub open spec fn cap_verts(self, a: Vec2, b: Vec2, at_end: bool) -> Seq<Vec2> {
        match self.corner_style {
            CornerStyle::Sharp => Seq::empty(),
            CornerStyle::Rounded { resolution, .. } => {
                if a == b {
                    Seq::empty()
                } else {
                    let t = Self::cap_tri_count(resolution as int);
                    let origo = self.cap_origo_spec(a, b, at_end);
                    let seg = if at_end {
                        v_sub(a, b)
                    } else {
                        v_sub(b, a)
                    };
                    seq![origo] + Seq::new(
                        t as nat,
                        |i: int|
                            Self::cap_vert_spec(origo, seg, self.width as int, t, i + 1),
                    )
                }
            },
        }
    }

    /// The colors those cap vertices receive: the center sample for the
    /// origin, then the fan's lateral sweep mirrored by the side factor.
    #[verifier::opaque]
    pub open spec fn cap_cols(self, a: Vec2, b: Vec2, index: int, side: int) -> Seq<
        Rgba,
    > {
        match self.corner_style {
            CornerStyle::Sharp => Seq::empty(),
            CornerStyle::Rounded { resolution, .. } => {
                if a == b {
                    Seq::empty()
                } else {
                    let t = Self::cap_tri_count(resolution as int);
                    seq![color_at_spec(self.color, index, 0)] + Seq::new(
                        t as nat,
                        |i: int|
                            color_at_spec(
                                self.color,
                                index,
                                Self::cap_grad_spec(t, i + 1, side),
                            ),
                    )
                }
            },
        }
    }

    /// The triangles one rounded cap appends, its origin landing at slot
    /// `base`: the two boundary triangles and the fan's middle chain.
    #[verifier::opaque]
    pub open spec fn cap_idx(self, a: Vec2, b: Vec2, base: int, ia: u32, ib: u32) -> Seq<
        u32,
    > {
        match self.corner_style {
            CornerStyle::Sharp => Seq::empty(),
            CornerStyle::Rounded { resolution, .. } => {
                if a == b {
                    Seq::empty()
                } else {
                    let t = Self::cap_tri_count(resolution as int);
                    seq![
                        base as u32,
                        (base + 1) as u32,
                        ia,
                        base as u32,
                        (base + t) as u32,
                        ib,
                    ] + cap_mid_tris(base, base + 1, t - 1)
                }
            },
        }
    }

    /// Emit the cap at one open end: `seg_a -> seg_b` is that end's path
    /// segment, `at_end` says which of its two ends the cap closes, and
    /// `index_a`/`index_b` are the vertex indices of the end's boundary
    /// pair. The appended vertices, colors and triangles are exactly the
    /// cap model's; structurally, buffers only grow, vertex and color
    /// growth match, index growth stays in whole triangles, and every new
    /// index stays below the final vertex count.
    #[verifier::rlimit(100)]
    fn cap_open_end(
        &self,
        vertices: &mut Vec<Vec2>,
        indices: &mut Vec<u32>,
        colors: &mut Vec<Rgba>,
        seg_a: Vec2,
        seg_b: Vec2,
        at_end: bool,
        index_a: u32,
        index_b: u32,
        index: usize,
        side_factor: i64,
    )
        requires
            self.wf(),
            self.bounds_ok(),
            index < self.locations@.len(),
            abs_int(seg_a.x as int) <= PATH_LIMIT,
            abs_int(seg_a.y as int) <= PATH_LIMIT,
            abs_int(seg_b.x as int) <= PATH_LIMIT,
            abs_int(seg_b.y as int) <= PATH_LIMIT,
            side_factor == 1 || side_factor == -1,
            index_a < old(vertices)@.len(),
            index_b < old(vertices)@.len(),
            old(vertices)@.len() <= 0x7880_0000,
        ensures
            final(vertices)@.len() >= old(vertices)@.len(),
            final(colors)@.len() >= old(colors)@.len(),
            final(indices)@.len() >= old(indices)@.len(),
            final(vertices)@.subrange(0, old(vertices)@.len() as int) == old(vertices)@,
            final(colors)@.subrange(0, old(colors)@.len() as int) == old(colors)@,
            final(indices)@.subrange(0, old(indices)@.len() as int) == old(indices)@,
            final(vertices)@.len() - old(vertices)@.len()
                == final(colors)@.len() - old(colors)@.len(),
            final(vertices)@.len() <= old(vertices)@.len() + 499,
            (final(indices)@.len() - old(indices)@.len()) % 3 == 0,
            forall|m: int|
                old(indices)@.len() <= m < final(indices)@.len() ==> (
                #[trigger] final(indices)@[m]) < final(vertices)@.len(),
            final(vertices)@ == old(vertices)@ + self.cap_verts(seg_a, seg_b, at_end),
            final(colors)@ == old(colors)@ + self.cap_cols(
                seg_a,
                seg_b,
                index as int,
                side_factor as int,
            ),
            final(indices)@ == old(indices)@ + self.cap_idx(
                seg_a,
                seg_b,
                old(vertices)@.len() as int,
                index_a,
                index_b,
            ),
    {
        proof {
            reveal(FlexLine::cap_verts);
            reveal(FlexLine::cap_cols);
            reveal(FlexLine::cap_idx);
        }
        let lw = self.left_width();
        let rw = self.right_width();
        let lseg = match calc_left_side_segment(seg_a, seg_b, lw) {
            Option::Some(seg) => seg,
            Option::None => {
                proof {
                    assert(final(indices)@.subrange(0, old(indices)@.len() as int)
                        =~= old(indices)@);
                    assert(final(vertices)@.subrange(0, old(vertices)@.len() as int)
                        =~= old(vertices)@);
                    assert(final(colors)@.subrange(0, old(colors)@.len() as int)
                        =~= old(colors)@);
                    assert(final(vertices)@ =~= old(vertices)@ + self.cap_verts(
                        seg_a,
                        seg_b,
                        at_end,
                    ));
                    assert(final(colors)@ =~= old(colors)@ + self.cap_cols(
                        seg_a,
                        seg_b,
                        index as int,
                        side_factor as int,
                    ));
                    assert(final(indices)@ =~= old(indices)@ + self.cap_idx(
                        seg_a,
                        seg_b,
                        old(vertices)@.len() as int,
                        index_a,
                        index_b,
                    ));
                }
                return ;
            },
        };
        let rseg = match calc_right_side_segment(seg_a, seg_b, rw) {
            Option::Some(seg) => seg,
            Option::None => {
                proof {
                    assert(false);
                }
                return ;
            },
        };
        let el = if at_end {
            lseg.1
        } else {
            lseg.0
        };
        let er = if at_end {
            rseg.1
        } else {
            rseg.0
        };
        proof {
            crate::vector_utils::lemma_left_side_bounds(
                seg_a,
                seg_b,
                self.lw_spec(),
                PATH_LIMIT as int,
                2 * PATH_LIMIT as int,
            );
            crate::vector_utils::lemma_left_side_bounds(
                seg_b,
                seg_a,
                self.rw_spec(),
                PATH_LIMIT as int,
                2 * PATH_LIMIT as int,
            );
            lemma_tdiv_quotient_bound(el.x as int + er.x as int, 2, 3 * PATH_LIMIT as int);
            lemma_tdiv_quotient_bound(el.y as int + er.y as int, 2, 3 * PATH_LIMIT as int);
        }
        let origo = Vec2 {
            x: divt(el.x as i128 + er.x as i128, 2) as i64,
            y: divt(el.y as i128 + er.y as i128, 2) as i64,
        };
        let segment_vec = if at_end {
            sub_vec(seg_a, seg_b)
        } else {
            sub_vec(seg_b, seg_a)
        };
        let ghost oldv = vertices@.len() as int;
        let ghost oldi = indices@.len() as int;
        self.add_cap(
            vertices,
            indices,
            colors,
            origo,
            segment_vec,
            index_a,
            index_b,
            index,
            side_factor,
        );
        proof {
            if let CornerStyle::Rounded { resolution, .. } = self.corner_style {
                let t = Self::cap_tri_count(resolution as int);
                lemma_cap_mid_tris_facts(oldv, oldv + 1, t - 1);
                assert(forall|m: int|
                    oldi <= m < indices@.len() ==> (#[trigger] indices@[m])
                        < vertices@.len());
                assert(origo == self.cap_origo_spec(seg_a, seg_b, at_end));
                assert(segment_vec == (if at_end {
                    v_sub(seg_a, seg_b)
                } else {
                    v_sub(seg_b, seg_a)
                }));
                assert(final(vertices)@ =~= old(vertices)@ + self.cap_verts(
                    seg_a,
                    seg_b,
                    at_end,
                ));
                assert(final(colors)@ =~= old(colors)@ + self.cap_cols(
                    seg_a,
                    seg_b,
                    index as int,
                    side_factor as int,
                ));
                assert(final(indices)@ =~= old(indices)@ + self.cap_idx(
                    seg_a,
                    seg_b,
                    oldv,
                    index_a,
                    index_b,
                ));
            }
            assert(final(vertices)@.subrange(0, old(vertices)@.len() as int)
                =~= old(vertices)@);
            assert(final(colors)@.subrange(0, old(colors)@.len() as int) =~= old(colors)@);
            assert(final(indices)@.subrange(0, old(indices)@.len() as int) =~= old(indices)@);
        }
    }

    /// Close an open path's two ends with rounded caps (none in the sharp
    /// style): per the cap model, each cap's origin is the midpoint of its
    /// end's two boundary vertices and its fan sweeps outward away from
    /// the path, the end cap first, then the start cap.
    #[verifier::rlimit(100)]
    fn calc_caps(&self, vertices: &mut Vec<Vec2>, indices: &mut Vec<u32>, colors: &mut Vec<Rgba>)
        requires
            self.wf(),
            self.bounds_ok(),
            old(vertices)@.len() <= 0x7800_0000,
        ensures
            final(vertices)@.len() >= old(vertices)@.len(),
            final(colors)@.len() >= old(colors)@.len(),
            final(indices)@.len() >= old(indices)@.len(),
            final(vertices)@.subrange(0, old(vertices)@.len() as int) == old(vertices)@,
            final(colors)@.subrange(0, old(colors)@.len() as int) == old(colors)@,
            final(indices)@.subrange(0, old(indices)@.len() as int) == old(indices)@,
            final(vertices)@.len() - old(vertices)@.len()
                == final(colors)@.len() - old(colors)@.len(),
            final(vertices)@.len() <= old(vertices)@.len() + 998,
            (final(indices)@.len() - old(indices)@.len()) % 3 == 0,
            forall|m: int|
                old(indices)@.len() <= m < final(indices)@.len() ==> (
                #[trigger] final(indices)@[m]) < final(vertices)@.len(),
            old(vertices)@.len() < 2 ==> final(vertices)@ == old(vertices)@ && final(colors)@
                == old(colors)@ && final(indices)@ == old(indices)@,
            old(vertices)@.len() >= 2 ==> {
                let n = self.locations@.len() as int;
                let ev = self.cap_verts(self.locations@[n - 2], self.locations@[n - 1], true);
                &&& final(vertices)@ == old(vertices)@ + ev + self.cap_verts(
                    self.locations@[0],
                    self.locations@[1],
                    false,
                )
                &&& final(colors)@ == old(colors)@ + self.cap_cols(
                    self.locations@[n - 2],
                    self.locations@[n - 1],
                    n - 1,
                    -1,
                ) + self.cap_cols(self.locations@[0], self.locations@[1], 0, 1)
                &&& final(indices)@ == old(indices)@ + self.cap_idx(
                    self.locations@[n - 2],
                    self.locations@[n - 1],
                    old(vertices)@.len() as int,
                    (old(vertices)@.len() - 1) as u32,
                    (old(vertices)@.len() - 2) as u32,
                ) + self.cap_idx(
                    self.locations@[0],
                    self.locations@[1],
                    (old(vertices)@.len() + ev.len()) as int,
                    0,
                    1,
                )
            },
    {
        if vertices.len() < 2 {
            proof {
                assert(final(indices)@.subrange(0, old(indices)@.len() as int)
                    =~= old(indices)@);
                assert(final(vertices)@.subrange(0, old(vertices)@.len() as int)
                    =~= old(vertices)@);
                assert(final(colors)@.subrange(0, old(colors)@.len() as int) =~= old(colors)@);
            }
            return ;
        }
        let n = self.locations.len();
        proof {
            assert(abs_int(self.locations@[n as int - 1].x as int) <= PATH_LIMIT);
            assert(abs_int(self.locations@[n as int - 1].y as int) <= PATH_LIMIT);
            assert(abs_int(self.locations@[n as int - 2].x as int) <= PATH_LIMIT);
            assert(abs_int(self.locations@[n as int - 2].y as int) <= PATH_LIMIT);
            assert(abs_int(self.locations@[0].x as int) <= PATH_LIMIT);
            assert(abs_int(self.locations@[0].y as int) <= PATH_LIMIT);
            assert(abs_int(self.locations@[1].x as int) <= PATH_LIMIT);
            assert(abs_int(self.locations@[1].y as int) <= PATH_LIMIT);
        }
        let ia: u32 = (vertices.len() - 1) as u32;
        let ib: u32 = (vertices.len() - 2) as u32;
        self.cap_open_end(
            vertices,
            indices,
            colors,
            self.locations[n - 2],
            self.locations[n - 1],
            true,
            ia,
            ib,
            n - 1,
            -1,
        );
        let ghost v_mid = vertices@;
        let ghost c_mid = colors@;
        let ghost i_mid = indices@;
        self.cap_open_end(
            vertices,
            indices,
            colors,
            self.locations[0],
            self.locations[1],
            false,
            0,
            1,
            0,
            1,
        );
        proof {
            assert(final(vertices)@.subrange(0, old(vertices)@.len() as int)
                =~= v_mid.subrange(0, old(vertices)@.len() as int));
            assert(final(colors)@.subrange(0, old(colors)@.len() as int) =~= c_mid.subrange(
                0,
                old(colors)@.len() as int,
            ));
            assert(final(indices)@.subrange(0, old(indices)@.len() as int) =~= i_mid.subrange(
                0,
                old(indices)@.len() as int,
            ));
            let fin_i = final(indices)@;
            assert(forall|m: int|
                0 <= m < i_mid.len() ==> (#[trigger] fin_i[m]) == fin_i.subrange(
                    0,
                    i_mid.len() as int,
                )[m]);
            let nn = self.locations@.len() as int;
            let ev = self.cap_verts(self.locations@[nn - 2], self.locations@[nn - 1], true);
            assert(final(vertices)@ =~= old(vertices)@ + ev + self.cap_verts(
                self.locations@[0],
                self.locations@[1],
                false,
            ));
            assert(final(colors)@ =~= old(colors)@ + self.cap_cols(
                self.locations@[nn - 2],
                self.locations@[nn - 1],
                nn - 1,
                -1,
            ) + self.cap_cols(self.locations@[0], self.locations@[1], 0, 1));
            assert(final(indices)@ =~= old(indices)@ + self.cap_idx(
                self.locations@[nn - 2],
                self.locations@[nn - 1],
                old(vertices)@.len() as int,
                (old(vertices)@.len() - 1) as u32,
                (old(vertices)@.len() - 2) as u32,
            ) + self.cap_idx(
                self.locations@[0],
                self.locations@[1],
                (old(vertices)@.len() + ev.len()) as int,
                0,
                1,
            ));
        }
    }

    /// The two placeholder vertices a connected stroke starts with; they
    /// are overwritten by the wrapped last corner's pair when the ring is
    /// stitched shut.
    pub open spec fn init_verts(self) -> Seq<Vec2> {
        if self.is_connected_spec() {
            seq![Vec2 { x: 0, y: 0 }, Vec2 { x: 0, y: 0 }]
        } else {
            Seq::empty()
        }
    }

    /// The placeholder pair's colors: the first path point's edge samples.
    pub open spec fn init_cols(self) -> Seq<Rgba> {
        if self.is_connected_spec() {
            seq![
                color_at_spec(self.color, 0, -FIXED_ONE as int),
                color_at_spec(self.color, 0, FIXED_ONE as int),
            ]
        } else {
            Seq::empty()
        }
    }

    /// The vertex buffer after the first `i` path indices have contributed.
    pub open spec fn verts_upto(self, i: int) -> Seq<Vec2>
        decreases i,
    {
        if i <= 0 {
            self.init_verts()
        } else {
            self.verts_upto(i - 1) + self.corner_verts(i - 1)
        }
    }

    /// The color buffer after the first `i` path indices have contributed.
    pub open spec fn cols_upto(self, i: int) -> Seq<Rgba>
        decreases i,
    {
        if i <= 0 {
            self.init_cols()
        } else {
            self.cols_upto(i - 1) + self.corner_cols(i - 1)
        }
    }

    /// The index buffer after the first `i` path indices have contributed.
    pub open spec fn idx_upto(self, i: int) -> Seq<u32>
        decreases i,
    {
        if i <= 0 {
            Seq::empty()
        } else {
            self.idx_upto(i - 1) + self.corner_idx(i - 1, self.verts_upto(i - 1).len() as int)
        }
    }

    /// The finished mesh's vertex buffer: the per-index contributions in
    /// path order, then either the ring stitched shut (connected; empty if
    /// no corner emitted anything) or the two end caps (open).
    pub open spec fn mesh_verts_spec(self) -> Seq<Vec2> {
        let n = self.locations@.len() as int;
        let body = self.verts_upto(n);
        if self.is_connected_spec() {
            if self.idx_upto(n).len() == 0 {
                Seq::empty()
            } else {
                stitched_seq(body)
            }
        } else {
            if body.len() < 2 {
                body
            } else {
                body + self.cap_verts(self.locations@[n - 2], self.locations@[n - 1], true)
                    + self.cap_verts(self.locations@[0], self.locations@[1], false)
            }
        }
    }

    /// The finished mesh's color buffer, built alongside the vertices.
    pub open spec fn mesh_cols_spec(self) -> Seq<Rgba> {
        let n = self.locations@.len() as int;
        let body = self.cols_upto(n);
        if self.is_connected_spec() {
            if self.idx_upto(n).len() == 0 {
                Seq::empty()
            } else {
                stitched_seq(body)
            }
        } else {
            if self.verts_upto(n).len() < 2 {
                body
            } else {
                body + self.cap_cols(
                    self.locations@[n - 2],
                    self.locations@[n - 1],
                    n - 1,
                    -1,
                ) + self.cap_cols(self.locations@[0], self.locations@[1], 0, 1)
            }
        }
    }

    /// The finished mesh's index buffer: the corners' quads with, for a
    /// connected stroke, the newest quad retargeted onto the placeholder
    /// slots, or, for an open rounded stroke, the two caps' triangles.
    pub open spec fn mesh_idx_spec(self) -> Seq<u32> {
        let n = self.locations@.len() as int;
        let body = self.idx_upto(n);
        let bv = self.verts_upto(n);
        if self.is_connected_spec() {
            if body.len() == 0 {
                body
            } else {
                stitched_indices(body)
            }
        } else {
            if bv.len() < 2 {
                body
            } else {
                let ev = self.cap_verts(self.locations@[n - 2], self.locations@[n - 1], true);
                body + self.cap_idx(
                    self.locations@[n - 2],
                    self.locations@[n - 1],
                    bv.len() as int,
                    (bv.len() - 1) as u32,
                    (bv.len() - 2) as u32,
                ) + self.cap_idx(
                    self.locations@[0],
                    self.locations@[1],
                    (bv.len() + ev.len()) as int,
                    0,
                    1,
                )
            }
        }
    }

    /// Tessellate this stroke into a triangulated mesh: exactly the buffers
    /// `mesh_verts_spec`, `mesh_cols_spec` and `mesh_idx_spec` describe. In
    /// consequence the color array matches the vertex array in length, the
    /// indices come in whole triangles, and no triangle ever references a
    /// vertex index at or past the vertex count.
    #[verifier::rlimit(100)]
    #[verifier::loop_isolation(false)]
    pub fn make_mesh(&self) -> (m: Mesh)
        requires
            self.wf(),
            self.bounds_ok(),
        ensures
            m.colors@.len() == m.positions@.len(),
            m.indices@.len() % 3 == 0,
            forall|k: int|
                0 <= k < m.indices@.len() ==> (#[trigger] m.indices@[k] as int)
                    < m.positions@.len(),
            self.is_connected_spec() ==> m.positions@.len() % 2 == 0,
            self.is_connected_spec() && m.indices@.len() == 0 ==> m.positions@.len() == 0,
            !self.is_connected_spec() && self.locations@[0] != self.locations@[1] ==> {
                let loc0 = self.locations@[0];
                let loc1 = self.locations@[1];
                &&& m.positions@.len() >= 2
                &&& m.positions@[0] == left_side_spec(loc0, loc1, self.lw_spec()).0
                &&& m.positions@[1] == right_side_spec(loc0, loc1, self.rw_spec()).0
                &&& m.colors@[0] == color_at_spec(self.color, 0, -FIXED_ONE as int)
                &&& m.colors@[1] == color_at_spec(self.color, 0, FIXED_ONE as int)
            },
            m.positions@ == self.mesh_verts_spec(),
            m.colors@ == self.mesh_cols_spec(),
            m.indices@ == self.mesh_idx_spec(),
    {
        let mut vertices: Vec<Vec2> = Vec::new();
        let mut indices: Vec<u32> = Vec::new();
        let mut colors: Vec<Rgba> = Vec::new();

        if self.is_connected() {
            // Placeholder pair, replaced by the last generated pair when the
            // ring is stitched shut.
            vertices.push(Vec2 { x: 0, y: 0 });
            vertices.push(Vec2 { x: 0, y: 0 });
            colors.push(self.color.get(0, -32768));
            colors.push(self.color.get(0, 32768));
        }

        proof {
            assert(vertices@ =~= self.init_verts());
            assert(colors@ =~= self.init_cols());
            assert(indices@ =~= Seq::<u32>::empty());
        }
        let n = self.locations.len();
        let mut i: usize = 0;
        while i < n
            invariant
                0 <= i <= n,
                vertices@.len() == colors@.len(),
                vertices@.len() <= 2 + 2004 * i,
                vertices@.len() % 2 == 0,
                indices@.len() % 6 == 0,
                !self.is_connected_spec() && i >= 1 && self.locations@[0] != self.locations@[1]
                    ==> {
                    let loc0 = self.locations@[0];
                    let loc1 = self.locations@[1];
                    &&& vertices@.len() >= 2
                    &&& vertices@[0] == left_side_spec(loc0, loc1, self.lw_spec()).0
                    &&& vertices@[1] == right_side_spec(loc0, loc1, self.rw_spec()).0
                    &&& colors@[0] == color_at_spec(self.color, 0, -FIXED_ONE as int)
                    &&& colors@[1] == color_at_spec(self.color, 0, FIXED_ONE as int)
                },
                self.is_connected_spec() ==> vertices@.len() >= 2,
                self.is_connected_spec() && indices@.len() == 0 ==> vertices@.len() == 2,
                !self.is_connected_spec() && i == 0 ==> vertices@.len() == 0,
                vertices@ == self.verts_upto(i as int),
                colors@ == self.cols_upto(i as int),
                indices@ == self.idx_upto(i as int),
                indices@.len() > 0 ==> {
                    &&& vertices@.len() >= 4
                    &&& indices@.len() >= 6
                    &&& indices@.subrange(indices@.len() - 6, indices@.len() as int)
                        == quad_joining(vertices@.len() - 2)
                    &&& forall|m: int|
                        0 <= m < indices@.len() - 6 ==> (#[trigger] indices@[m])
                            < vertices@.len() - 2
                },
                forall|m: int|
                    0 <= m < indices@.len() ==> (#[trigger] indices@[m]) < vertices@.len(),
            decreases n - i,
        {
            let ghost pre_i = indices@;
            let ghost pre_vlen = vertices@.len() as int;
            self.add_corner(i, &mut vertices, &mut indices, &mut colors);
            proof {
                if indices@.len() == pre_i.len() {
                    assert(indices@ =~= pre_i);
                }
                assert(forall|m: int|
                    0 <= m < pre_i.len() ==> (#[trigger] indices@[m]) == pre_i[m]);
                if indices@.len() > pre_i.len() {
                    assert(forall|m: int|
                        0 <= m < pre_i.len() ==> (#[trigger] indices@[m]) < pre_vlen);
                }
                if !self.is_connected_spec() && i >= 1 && pre_vlen >= 2 {
                    assert(vertices@[0] == vertices@.subrange(0, pre_vlen)[0]);
                    assert(vertices@[1] == vertices@.subrange(0, pre_vlen)[1]);
                    assert(colors@[0] == colors@.subrange(0, pre_vlen)[0]);
                    assert(colors@[1] == colors@.subrange(0, pre_vlen)[1]);
                }
                assert(self.verts_upto(i as int + 1) == self.verts_upto(i as int)
                    + self.corner_verts(i as int));
                assert(self.cols_upto(i as int + 1) == self.cols_upto(i as int)
                    + self.corner_cols(i as int));
                assert(self.idx_upto(i as int + 1) == self.idx_upto(i as int) + self.corner_idx(
                    i as int,
                    self.verts_upto(i as int).len() as int,
                ));
            }
            i = i + 1;
        }

        let ghost pre_cap_i = indices@;
        let ghost pre_cap_v = vertices@.len() as int;
        if !self.is_connected() {
            self.calc_caps(&mut vertices, &mut indices, &mut colors);
            proof {
                assert(forall|m: int|
                    0 <= m < pre_cap_i.len() ==> (#[trigger] indices@[m]) == indices@.subrange(
                        0,
                        pre_cap_i.len() as int,
                    )[m]);
                assert(forall|m: int|
                    0 <= m < indices@.len() ==> (#[trigger] indices@[m]) < vertices@.len());
                if pre_cap_v >= 2 {
                    assert(vertices@[0] == vertices@.subrange(0, pre_cap_v)[0]);
                    assert(vertices@[1] == vertices@.subrange(0, pre_cap_v)[1]);
                    assert(colors@[0] == colors@.subrange(0, pre_cap_v)[0]);
                    assert(colors@[1] == colors@.subrange(0, pre_cap_v)[1]);
                }
            }
        } else {
            self.stitch_ring(&mut vertices, &mut indices, &mut colors);
        }
        proof {
            assert(vertices@ == self.mesh_verts_spec());
            assert(colors@ == self.mesh_cols_spec());
            assert(indices@ == self.mesh_idx_spec());
        }

        Mesh { positions: vertices, indices, colors }
    }

    /// Stitch a connected stroke's ring shut: the last generated pair
    /// becomes the placeholder pair at the front, and the newest quad's
    /// references to it are retargeted to the front slots. A ring in which
    /// no corner emitted anything becomes an empty mesh.
    #[verifier::rlimit(100)]
    fn stitch_ring(&self, vertices: &mut Vec<Vec2>, indices: &mut Vec<u32>, colors: &mut Vec<Rgba>)
        requires
            old(vertices)@.len() == old(colors)@.len(),
            old(vertices)@.len() >= 2,
            old(vertices)@.len() % 2 == 0,
            old(indices)@.len() % 6 == 0,
            old(indices)@.len() == 0 ==> old(vertices)@.len() == 2,
            forall|m: int|
                0 <= m < old(indices)@.len()
                    ==> (#[trigger] old(indices)@[m]) < old(vertices)@.len(),
            old(indices)@.len() > 0 ==> {
                &&& old(vertices)@.len() >= 4
                &&& old(indices)@.len() >= 6
                &&& old(indices)@.subrange(
                    old(indices)@.len() - 6,
                    old(indices)@.len() as int,
                ) == quad_joining(old(vertices)@.len() - 2)
                &&& forall|m: int|
                    0 <= m < old(indices)@.len() - 6
                        ==> (#[trigger] old(indices)@[m]) < old(vertices)@.len() - 2
            },
        ensures
            final(vertices)@.len() == final(colors)@.len(),
            final(indices)@.len() == old(indices)@.len(),
            final(vertices)@.len() % 2 == 0,
            final(indices)@.len() == 0 ==> final(vertices)@.len() == 0,
            forall|m: int|
                0 <= m < final(indices)@.len()
                    ==> (#[trigger] final(indices)@[m]) < final(vertices)@.len(),
            old(indices)@.len() == 0 ==> final(vertices)@ == Seq::<Vec2>::empty()
                && final(colors)@ == Seq::<Rgba>::empty() && final(indices)@ == old(indices)@,
            old(indices)@.len() > 0 ==> {
                &&& final(vertices)@ == stitched_seq(old(vertices)@)
                &&& final(colors)@ == stitched_seq(old(colors)@)
                &&& final(indices)@ == stitched_indices(old(indices)@)
            },
    {
        if indices.len() > 0 {
            let ghost pre_patch = indices@;
            let b = match vertices.pop() {
                Option::Some(v) => v,
                Option::None => {
                    return ;
                },
            };
            let a = match vertices.pop() {
                Option::Some(v) => v,
                Option::None => {
                    return ;
                },
            };
            vertices[0] = a;
            vertices[1] = b;
            let cb = match colors.pop() {
                Option::Some(v) => v,
                Option::None => {
                    return ;
                },
            };
            let ca = match colors.pop() {
                Option::Some(v) => v,
                Option::None => {
                    return ;
                },
            };
            colors[0] = ca;
            colors[1] = cb;
            let count = indices.len();
            indices[count - 4] = 0;
            indices[count - 2] = 1;
            indices[count - 1] = 0;
            proof {
                assert(forall|m: int|
                    0 <= m < indices@.len() ==> (#[trigger] indices@[m]) < vertices@.len()) by {
                    assert(forall|m: int|
                        0 <= m < pre_patch.len() - 6 ==> (#[trigger] indices@[m]) == pre_patch[m]);
                };
                assert(vertices@ =~= stitched_seq(old(vertices)@));
                assert(colors@ =~= stitched_seq(old(colors)@));
                assert(indices@ =~= stitched_indices(old(indices)@));
            }
        } else {
            vertices.clear();
            colors.clear();
        }
    }

}

/// The middle triangles of a cap fan: for each `k` in `1..=n`, the
/// triangle of the origin vertex `o` and the consecutive fan vertices
/// `f + k` and `f + k - 1`.
pub open spec fn cap_mid_tris(o: int, f: int, n: int) -> Seq<u32>
    decreases n,
{
    if n <= 0 {
        Seq::empty()
    } else {
        cap_mid_tris(o, f, n - 1) + seq![o as u32, (f + n) as u32, (f + n - 1) as u32]
    }
}

/// The tessellator's single entry point: validate a stroke description and
/// expand it into a triangulated mesh. A rejected description reports why
/// before any geometry work, and no partial mesh is ever produced. An
/// accepted one yields exactly the buffers the mesh model describes; in
/// consequence the color array matches the vertex array, the indices come
/// in whole triangles, and every index stays below the vertex count.
pub fn tessellate(
    locations: Vec<Vec2>,
    width: i64,
    alignment: Alignment,
    corner_style: CornerStyle,
    connection_style: ConnectionStyle,
    color: LineColor,
) -> (r: Result<Mesh, ConstructionError>)
    requires
        locations@.len() <= MAX_POINTS,
        forall|i: int|
            0 <= i < locations@.len() ==> abs_int(#[trigger] locations@[i].x as int) <= PATH_LIMIT
                && abs_int(locations@[i].y as int) <= PATH_LIMIT,
        0 <= width <= PATH_LIMIT,
        alignment matches Alignment::Offset(d) ==> abs_int(d as int) <= PATH_LIMIT,
        corner_style matches CornerStyle::Rounded { radius, resolution } ==> 0 <= radius
            <= PATH_LIMIT && resolution <= MAX_RESOLUTION,
    ensures
        r is Ok <==> {
            &&& locations@.len() >= 2
            &&& (color matches LineColor::PerVertex(cols) ==> cols@.len() == locations@.len())
            &&& (corner_style matches CornerStyle::Rounded { resolution, .. } ==> resolution >= 1)
        },
        r matches Ok(m) ==> {
            &&& m.colors@.len() == m.positions@.len()
            &&& m.indices@.len() % 3 == 0
            &&& forall|k: int|
                0 <= k < m.indices@.len() ==> (#[trigger] m.indices@[k] as int)
                    < m.positions@.len()
        },
        r matches Ok(m) ==> {
            let line = FlexLine {
                locations,
                width,
                corner_style,
                alignment,
                connection_style,
                color,
            };
            &&& m.positions@ == line.mesh_verts_spec()
            &&& m.colors@ == line.mesh_cols_spec()
            &&& m.indices@ == line.mesh_idx_spec()
        },
{
    match FlexLine::new(locations, width, alignment, corner_style, connection_style, color) {
        Result::Ok(line) => Result::Ok(line.make_mesh()),
        Result::Err(e) => Result::Err(e),
    }
}

/// Structure of a cap's middle triangles: three entries per triangle, each
/// entry at most `f + n`.
pub proof fn lemma_cap_mid_tris_facts(o: int, f: int, n: int)
    requires
        0 <= o,
        f == o + 1,
        0 <= n,
    ensures
        cap_mid_tris(o, f, n).len() == 3 * n,
        forall|m: int|
            0 <= m < cap_mid_tris(o, f, n).len() ==> (#[trigger] cap_mid_tris(o, f, n)[m]) <= f
                + n,
    decreases n,
{
    if n > 0 {
        lemma_cap_mid_tris_facts(o, f, n - 1);
        assert(forall|m: int|
            0 <= m < cap_mid_tris(o, f, n - 1).len() ==> (#[trigger] cap_mid_tris(o, f, n - 1)[m])
                <= f + n - 1);
    }
}

/// The quads appended by a fan of `k` pairs pushed from vertex index
/// `oldv` on: one quad per pair, each joining it to the pair before it.
pub open spec fn fan_quads(oldv: int, k: int) -> Seq<u32>
    decreases k,
{
    if k <= 0 {
        Seq::empty()
    } else {
        fan_quads(oldv, k - 1) + quad_joining(oldv + 2 * (k - 1))
    }
}

/// Structure of a fan's quads: six entries per non-degenerate quad, every
/// entry below the vertex count after the fan, every entry before the last
/// quad even two below it, and the last quad referencing exactly the last
/// two pairs.
pub proof fn lemma_fan_quads_facts(oldv: int, k: int)
    requires
        0 <= oldv,
        2 <= k,
    ensures
        fan_quads(oldv, k).len() % 6 == 0,
        forall|m: int|
            0 <= m < fan_quads(oldv, k).len() ==> (#[trigger] fan_quads(oldv, k)[m]) < oldv + 2
                * k,
        fan_quads(oldv, k).len() > 0 ==> {
            &&& oldv + 2 * k >= 4
            &&& fan_quads(oldv, k).len() >= 6
            &&& fan_quads(oldv, k).subrange(
                fan_quads(oldv, k).len() - 6,
                fan_quads(oldv, k).len() as int,
            ) == quad_joining(oldv + 2 * (k - 1))
            &&& forall|m: int|
                0 <= m < fan_quads(oldv, k).len() - 6 ==> (#[trigger] fan_quads(oldv, k)[m])
                    < oldv + 2 * k - 2
        },
    decreases k,
{
    let cur = fan_quads(oldv, k);
    let prevq = fan_quads(oldv, k - 1);
    let lastq = quad_joining(oldv + 2 * (k - 1));
    assert(cur == prevq + lastq);
    assert(lastq.len() == 6);
    if k == 2 {
        lemma_fan_quads_small(oldv);
    } else {
        lemma_fan_quads_facts(oldv, k - 1);
        assert(forall|m: int|
            0 <= m < prevq.len() ==> (#[trigger] prevq[m]) < oldv + 2 * (k - 1));
    }
    assert(cur.subrange(cur.len() - 6, cur.len() as int) =~= lastq);
}

/// The base cases of `lemma_fan_quads_facts`: a fan of one quad.
proof fn lemma_fan_quads_small(oldv: int)
    requires
        0 <= oldv,
    ensures
        fan_quads(oldv, 1).len() % 6 == 0,
        forall|m: int|
            0 <= m < fan_quads(oldv, 1).len() ==> (#[trigger] fan_quads(oldv, 1)[m]) < oldv + 2,
        fan_quads(oldv, 1).len() > 0 ==> oldv >= 2 && fan_quads(oldv, 1).len() == 6,
{
    assert(fan_quads(oldv, 1) == fan_quads(oldv, 0) + quad_joining(oldv));
    assert(fan_quads(oldv, 0) == Seq::<u32>::empty());
    if oldv >= 2 {
        assert(fan_quads(oldv, 1) =~= quad_joining(oldv));
    } else {
        assert(fan_quads(oldv, 1) =~= Seq::<u32>::empty());
    }
}

/// Appending one quad to an index buffer: the structural facts the mesh
/// assembler tracks, stated once over the sequences involved.
pub proof fn lemma_quad_append_structure(old_i: Seq<u32>, new_i: Seq<u32>, oldv: int, newv: int)
    requires
        new_i == old_i + quad_joining(oldv),
        newv == oldv + 2,
        0 <= oldv,
    ensures
        new_i.len() >= old_i.len(),
        (new_i.len() - old_i.len()) % 6 == 0,
        new_i.subrange(0, old_i.len() as int) == old_i,
        new_i.len() > old_i.len() ==> {
            &&& newv >= 4
            &&& new_i.len() >= old_i.len() + 6
            &&& new_i.subrange(new_i.len() - 6, new_i.len() as int) == quad_joining(newv - 2)
            &&& forall|m: int|
                old_i.len() <= m < new_i.len() - 6 ==> (#[trigger] new_i[m]) < newv - 2
        },
{
    assert(new_i.subrange(0, old_i.len() as int) =~= old_i);
    if oldv >= 2 {
        assert(new_i.subrange(new_i.len() - 6, new_i.len() as int) =~= quad_joining(newv - 2));
    }
}

/// Appending a rounded fan's quads to an index buffer: the structural facts
/// the mesh assembler tracks.
pub proof fn lemma_fan_append_structure(
    old_i: Seq<u32>,
    new_i: Seq<u32>,
    oldv: int,
    newv: int,
    k: int,
)
    requires
        new_i == old_i + fan_quads(oldv, k),
        newv == oldv + 2 * k,
        2 <= k,
        0 <= oldv,
    ensures
        new_i.len() > old_i.len(),
        (new_i.len() - old_i.len()) % 6 == 0,
        new_i.subrange(0, old_i.len() as int) == old_i,
        newv >= 4,
        new_i.len() >= old_i.len() + 6,
        new_i.subrange(new_i.len() - 6, new_i.len() as int) == quad_joining(newv - 2),
        forall|m: int|
            old_i.len() <= m < new_i.len() - 6 ==> (#[trigger] new_i[m]) < newv - 2,
{
    lemma_fan_quads_facts(oldv, k);
    let fq = fan_quads(oldv, k);
    assert(fq.len() > 0) by {
        assert(fq.len() >= quad_joining(oldv + 2).len());
    };
    assert(new_i.subrange(0, old_i.len() as int) =~= old_i);
    assert(new_i.subrange(new_i.len() - 6, new_i.len() as int) =~= fq.subrange(
        fq.len() - 6,
        fq.len() as int,
    ));
    assert(forall|m: int|
        old_i.len() <= m < new_i.len() - 6 ==> (#[trigger] new_i[m]) == fq[m - old_i.len()]);
}

/// A connected stroke's buffers after the ring is stitched shut: the last
/// two entries are popped and written over the two placeholder slots.
pub open spec fn stitched_seq<T>(vs: Seq<T>) -> Seq<T> {
    vs.subrange(0, vs.len() - 2).update(0, vs[vs.len() - 2]).update(1, vs[vs.len() - 1])
}

/// A connected stroke's index buffer after stitching: the newest quad's
/// three references to the popped pair are retargeted to slots 0 and 1.
pub open spec fn stitched_indices(is: Seq<u32>) -> Seq<u32> {
    is.update(is.len() - 4, 0u32).update(is.len() - 2, 1u32).update(is.len() - 1, 0u32)
}

/// The stitched ring's seam: the buffer shrinks by the popped pair, and
/// slots 0 and 1 hold exactly the last two generated entries, so the seam
/// pair is stored once and only once.
pub proof fn lemma_stitched_seam<T>(vs: Seq<T>)
    requires
        vs.len() >= 4,
    ensures
        stitched_seq(vs).len() == vs.len() - 2,
        stitched_seq(vs)[0] == vs[vs.len() - 2],
        stitched_seq(vs)[1] == vs[vs.len() - 1],
        forall|j: int| 2 <= j < vs.len() - 2 ==> stitched_seq(vs)[j] == vs[j],
{
}

/// The six indices of the quad joining the boundary pair at `l - 2, l - 1`
/// to the pair just pushed at `l, l + 1` — or no indices at all when no pair
/// precedes the new one.
pub open spec fn quad_joining(l: int) -> Seq<u32> {
    if l >= 2 {
        seq![(l - 2) as u32, (l - 1) as u32, l as u32, (l - 1) as u32, (l + 1) as u32, l as u32]
    } else {
        Seq::empty()
    }
}

} // verus!
