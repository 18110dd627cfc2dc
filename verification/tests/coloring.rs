use flexline2d::Alignment;
use flexline2d::ConnectionStyle;
use flexline2d::CornerStyle;
use flexline2d::FlexLine;
use flexline2d::LineColor;
use flexline2d::Rgba;
use flexline2d::Vec2;

fn red() -> Rgba {
    Rgba { r: 255, g: 0, b: 0, a: 255 }
}

fn blue() -> Rgba {
    Rgba { r: 0, g: 0, b: 255, a: 255 }
}

#[test]
fn gradient_edges_return_the_pure_colors() {
    let color = LineColor::GradientAcross { left: red(), right: blue() };
    assert_eq!(color.get(0, -32768), red());
    assert_eq!(color.get(0, 32768), blue());
    let mid = color.get(0, 0);
    assert_eq!(mid, Rgba { r: 128, g: 0, b: 127, a: 255 });
}

#[test]
fn fill_ignores_index_and_lateral_position() {
    let color = LineColor::Fill(red());
    assert_eq!(color.get(0, -32768), red());
    assert_eq!(color.get(7, 15000), red());
}

#[test]
fn per_vertex_follows_the_path_index() {
    let color = LineColor::PerVertex(vec![red(), blue()]);
    assert_eq!(color.get(0, -32768), red());
    assert_eq!(color.get(0, 32768), red());
    assert_eq!(color.get(1, 0), blue());
}

#[test]
fn gradient_paints_the_stroke_edges() {
    let line = FlexLine::new(
        vec![Vec2::new(0, 0), Vec2::new(100, 0)],
        10,
        Alignment::Center,
        CornerStyle::Sharp,
        ConnectionStyle::Unconnected,
        LineColor::GradientAcross { left: red(), right: blue() },
    )
    .unwrap();
    let mesh = line.make_mesh();
    // Left boundary vertices carry the left color, right ones the right.
    assert_eq!(mesh.colors[0], red());
    assert_eq!(mesh.colors[1], blue());
    assert_eq!(mesh.colors[2], red());
    assert_eq!(mesh.colors[3], blue());
}

#[test]
fn per_vertex_colors_follow_the_source_points() {
    let line = FlexLine::new(
        vec![Vec2::new(0, 0), Vec2::new(100, 0)],
        10,
        Alignment::Center,
        CornerStyle::Sharp,
        ConnectionStyle::Unconnected,
        LineColor::PerVertex(vec![red(), blue()]),
    )
    .unwrap();
    let mesh = line.make_mesh();
    assert_eq!(mesh.colors[0], red());
    assert_eq!(mesh.colors[1], red());
    assert_eq!(mesh.colors[2], blue());
    assert_eq!(mesh.colors[3], blue());
}
