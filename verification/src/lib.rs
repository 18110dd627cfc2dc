//! Verified variable-width polyline tessellation: an ordered path of 2D
//! points plus a stroke style (width, alignment, corner treatment, topology,
//! coloring) becomes a triangulated mesh of vertex positions, triangle
//! indices and per-vertex colors.
//!
//! All geometry is carried in integer units chosen by the caller; see
//! [`num`] for the scalar model and [`trig`] for the angle model. Every
//! mesh the tessellator returns keeps its color array matched to its vertex
//! array and never lets a triangle reference a vertex index at or past the
//! vertex count.
pub mod num;
pub mod trig;
pub mod vector_utils;
pub mod color;
pub mod flex_line;

pub use vector_utils::Vec2;
pub use vector_utils::Orientation;
pub use vector_utils::orientation_test;
pub use vector_utils::intersection_point;
pub use vector_utils::calc_left_side_segment;
pub use vector_utils::calc_right_side_segment;
pub use vector_utils::project_point_onto_line;
pub use color::Rgba;
pub use color::LineColor;
pub use flex_line::FlexLine;
pub use flex_line::CornerStyle;
pub use flex_line::Alignment;
pub use flex_line::ConnectionStyle;
pub use flex_line::ConstructionError;
pub use flex_line::Mesh;
pub use flex_line::tessellate;
pub use flex_line::PATH_LIMIT;
pub use flex_line::MAX_POINTS;
pub use flex_line::MAX_RESOLUTION;
