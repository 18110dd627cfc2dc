use flexline2d::Alignment;
use flexline2d::ConnectionStyle;
use flexline2d::ConstructionError;
use flexline2d::CornerStyle;
use flexline2d::FlexLine;
use flexline2d::LineColor;
use flexline2d::Mesh;
use flexline2d::Rgba;
use flexline2d::Vec2;

fn white() -> Rgba {
    Rgba { r: 255, g: 255, b: 255, a: 255 }
}

fn check_mesh_invariants(mesh: &Mesh) {
    assert_eq!(mesh.colors.len(), mesh.positions.len());
    assert_eq!(mesh.indices.len() % 3, 0);
    for &ix in &mesh.indices {
        assert!((ix as usize) < mesh.positions.len());
    }
}

#[test]
fn rungoddammit() {
    let path = FlexLine::new(
        vec![Vec2::new(0, 0), Vec2::new(0, 100), Vec2::new(100, 100)],
        100,
        Alignment::Center,
        CornerStyle::Rounded { radius: 25, resolution: 20 },
        ConnectionStyle::Unconnected,
        LineColor::Fill(white()),
    )
    .unwrap();

    let _mesh = path.make_mesh();
}

#[test]
fn straight_two_point_path_is_a_single_quad() {
    let line = FlexLine::new(
        vec![Vec2::new(0, 0), Vec2::new(10, 0)],
        4,
        Alignment::Center,
        CornerStyle::Sharp,
        ConnectionStyle::Unconnected,
        LineColor::Fill(white()),
    )
    .unwrap();
    let mesh = line.make_mesh();
    check_mesh_invariants(&mesh);
    assert_eq!(
        mesh.positions,
        vec![Vec2::new(0, 2), Vec2::new(0, -2), Vec2::new(10, 2), Vec2::new(10, -2)]
    );
    assert_eq!(mesh.indices.len(), 6);
    assert_eq!(mesh.indices, vec![0, 1, 2, 1, 3, 2]);
}

#[test]
fn closed_sharp_triangle_has_one_seam_and_no_orphan_placeholders() {
    let line = FlexLine::new(
        vec![Vec2::new(0, 0), Vec2::new(100, 0), Vec2::new(0, 100)],
        2,
        Alignment::Center,
        CornerStyle::Sharp,
        ConnectionStyle::Connected,
        LineColor::Fill(white()),
    )
    .unwrap();
    let mesh = line.make_mesh();
    check_mesh_invariants(&mesh);
    // Two vertices per corner, the seam pair shared rather than duplicated.
    assert_eq!(mesh.positions.len(), 6);
    assert_eq!(mesh.indices.len(), 18);
    // The placeholder pair was overwritten by the last corner's pair.
    assert_ne!(mesh.positions[0], Vec2::new(0, 0));
    assert_ne!(mesh.positions[1], Vec2::new(0, 0));
    // Each corner pair appears in the index buffer.
    for corner in 0..3 {
        let pair = (2 * corner) as u32;
        assert!(mesh.indices.contains(&pair));
        assert!(mesh.indices.contains(&(pair + 1)));
    }
}

#[test]
fn rounded_corner_with_zero_radius_collapses_to_the_miter_point() {
    let path = vec![Vec2::new(0, 0), Vec2::new(100, 0), Vec2::new(100, 100)];
    let sharp = FlexLine::new(
        path.clone(),
        10,
        Alignment::Center,
        CornerStyle::Sharp,
        ConnectionStyle::Unconnected,
        LineColor::Fill(white()),
    )
    .unwrap()
    .make_mesh();
    let rounded = FlexLine::new(
        path,
        10,
        Alignment::Center,
        CornerStyle::Rounded { radius: 0, resolution: 4 },
        ConnectionStyle::Unconnected,
        LineColor::Fill(white()),
    )
    .unwrap()
    .make_mesh();
    check_mesh_invariants(&sharp);
    check_mesh_invariants(&rounded);

    // The sharp miter pair at the corner.
    assert_eq!(sharp.positions[2], Vec2::new(95, 5));
    assert_eq!(sharp.positions[3], Vec2::new(105, -5));
    // With radius zero the fillet circle collapses onto the miter point on
    // the turn's inner side: every inner fan vertex equals it exactly.
    assert_eq!(rounded.positions[2], Vec2::new(95, 5));
    assert_eq!(rounded.positions[4], Vec2::new(95, 5));
    assert_eq!(rounded.positions[6], Vec2::new(95, 5));
    // The outer fan vertices stay one full stroke width from that point.
    for &k in &[3usize, 5, 7] {
        let p = rounded.positions[k];
        let dx = (p.x - 95) as f64;
        let dy = (p.y - 5) as f64;
        let dist = (dx * dx + dy * dy).sqrt();
        assert!((dist - 10.0).abs() <= 2.0, "outer fan vertex off the arc: {:?}", p);
    }
}

#[test]
fn rounded_caps_close_both_open_ends() {
    let line = FlexLine::new(
        vec![Vec2::new(0, 0), Vec2::new(100, 0)],
        10,
        Alignment::Center,
        CornerStyle::Rounded { radius: 5, resolution: 20 },
        ConnectionStyle::Unconnected,
        LineColor::Fill(white()),
    )
    .unwrap();
    let mesh = line.make_mesh();
    check_mesh_invariants(&mesh);
    // Four boundary vertices plus, per cap, one origin and eight fan
    // vertices (resolution 20: half of it less the two boundary ones).
    assert_eq!(mesh.positions.len(), 4 + 2 * 9);
    // One quad plus, per cap, two boundary triangles and seven middle ones.
    assert_eq!(mesh.indices.len(), 6 + 2 * 27);
    // The end cap's origin is the midpoint of the stroke's far boundary
    // pair, the start cap's the midpoint of its near one.
    assert_eq!(mesh.positions[4], Vec2::new(100, 0));
    assert_eq!(mesh.positions[13], Vec2::new(0, 0));
    // Every fan vertex stays on its cap's semicircle of half the width.
    for k in 5..13 {
        let p = mesh.positions[k];
        let d = (((p.x - 100).pow(2) + p.y.pow(2)) as f64).sqrt();
        assert!((d - 5.0).abs() <= 1.5, "end cap vertex off the arc: {:?}", p);
    }
    for k in 14..22 {
        let p = mesh.positions[k];
        let d = ((p.x.pow(2) + p.y.pow(2)) as f64).sqrt();
        assert!((d - 5.0).abs() <= 1.5, "start cap vertex off the arc: {:?}", p);
    }
}

#[test]
fn sharp_open_ends_stay_flat() {
    let line = FlexLine::new(
        vec![Vec2::new(0, 0), Vec2::new(100, 0)],
        10,
        Alignment::Center,
        CornerStyle::Sharp,
        ConnectionStyle::Unconnected,
        LineColor::Fill(white()),
    )
    .unwrap();
    let mesh = line.make_mesh();
    check_mesh_invariants(&mesh);
    assert_eq!(mesh.positions.len(), 4);
    assert_eq!(mesh.indices.len(), 6);
}

#[test]
fn alignment_widths_partition_the_total() {
    assert_eq!(Alignment::Center.left_width(5) + Alignment::Center.right_width(5), 5);
    assert_eq!(Alignment::Center.left_width(5), 2);
    assert_eq!(Alignment::Center.right_width(5), 3);
    assert_eq!(Alignment::LeftSide.left_width(8), 8);
    assert_eq!(Alignment::LeftSide.right_width(8), 0);
    assert_eq!(Alignment::RightSide.left_width(8), 0);
    assert_eq!(Alignment::RightSide.right_width(8), 8);
    assert_eq!(Alignment::Offset(3).left_width(10), 2);
    assert_eq!(Alignment::Offset(3).right_width(10), 8);
    assert_eq!(
        Alignment::Offset(3).right_width(10) - Alignment::Offset(3).left_width(10),
        2 * 3
    );
    assert_eq!(Alignment::Offset(-4).left_width(10) + Alignment::Offset(-4).right_width(10), 10);
}

#[test]
fn degenerate_collinear_ring_gives_an_empty_mesh() {
    let line = FlexLine::new(
        vec![Vec2::new(0, 0), Vec2::new(10, 0), Vec2::new(20, 0)],
        4,
        Alignment::Center,
        CornerStyle::Sharp,
        ConnectionStyle::Connected,
        LineColor::Fill(white()),
    )
    .unwrap();
    let mesh = line.make_mesh();
    check_mesh_invariants(&mesh);
    assert_eq!(mesh.positions.len(), 0);
    assert_eq!(mesh.indices.len(), 0);
}

#[test]
fn too_short_path_is_rejected() {
    let r = FlexLine::new(
        vec![Vec2::new(0, 0)],
        4,
        Alignment::Center,
        CornerStyle::Sharp,
        ConnectionStyle::Unconnected,
        LineColor::Fill(white()),
    );
    assert_eq!(r.unwrap_err(), ConstructionError::PathTooShort);
}

#[test]
fn mismatched_per_vertex_colors_are_rejected() {
    let r = FlexLine::new(
        vec![Vec2::new(0, 0), Vec2::new(10, 0)],
        4,
        Alignment::Center,
        CornerStyle::Sharp,
        ConnectionStyle::Unconnected,
        LineColor::PerVertex(vec![white()]),
    );
    assert_eq!(r.unwrap_err(), ConstructionError::ColorCountMismatch);
}

#[test]
fn zero_resolution_rounding_is_rejected() {
    let r = FlexLine::new(
        vec![Vec2::new(0, 0), Vec2::new(10, 0)],
        4,
        Alignment::Center,
        CornerStyle::Rounded { radius: 2, resolution: 0 },
        ConnectionStyle::Unconnected,
        LineColor::Fill(white()),
    );
    assert_eq!(r.unwrap_err(), ConstructionError::NonPositiveResolution);
}

#[test]
fn index_buffers_never_reference_missing_vertices() {
    let meshes = vec![
        FlexLine::new(
            vec![Vec2::new(0, 0), Vec2::new(50, 10), Vec2::new(90, -20), Vec2::new(140, 40)],
            12,
            Alignment::Offset(3),
            CornerStyle::Rounded { radius: 6, resolution: 16 },
            ConnectionStyle::Unconnected,
            LineColor::Fill(white()),
        )
        .unwrap()
        .make_mesh(),
        FlexLine::new(
            vec![Vec2::new(0, 0), Vec2::new(100, 0), Vec2::new(100, 100), Vec2::new(0, 100)],
            8,
            Alignment::LeftSide,
            CornerStyle::Sharp,
            ConnectionStyle::Connected,
            LineColor::Fill(white()),
        )
        .unwrap()
        .make_mesh(),
        FlexLine::new(
            vec![Vec2::new(0, 0), Vec2::new(100, 0), Vec2::new(100, 100), Vec2::new(0, 100)],
            8,
            Alignment::Center,
            CornerStyle::Rounded { radius: 4, resolution: 24 },
            ConnectionStyle::Connected,
            LineColor::Fill(white()),
        )
        .unwrap()
        .make_mesh(),
    ];
    for mesh in &meshes {
        check_mesh_invariants(mesh);
        assert!(mesh.positions.len() > 0);
        assert!(mesh.indices.len() > 0);
    }
}

#[test]
fn tessellate_is_the_one_call_entry_point() {
    let mesh = flexline2d::tessellate(
        vec![Vec2::new(0, 0), Vec2::new(10, 0)],
        4,
        Alignment::Center,
        CornerStyle::Sharp,
        ConnectionStyle::Unconnected,
        LineColor::Fill(white()),
    )
    .unwrap();
    check_mesh_invariants(&mesh);
    assert_eq!(
        mesh.positions,
        vec![Vec2::new(0, 2), Vec2::new(0, -2), Vec2::new(10, 2), Vec2::new(10, -2)]
    );

    let rejected = flexline2d::tessellate(
        vec![Vec2::new(0, 0)],
        4,
        Alignment::Center,
        CornerStyle::Sharp,
        ConnectionStyle::Unconnected,
        LineColor::Fill(white()),
    );
    assert_eq!(rejected.unwrap_err(), ConstructionError::PathTooShort);
}

#[test]
fn default_stroke_needs_points_before_it_can_be_tessellated() {
    let line = FlexLine::default();
    assert_eq!(line.locations.len(), 0);
    assert_eq!(line.width, 1);
    assert!(matches!(line.corner_style, CornerStyle::Sharp));
    assert!(matches!(line.connection_style, ConnectionStyle::Connected));
}

#[test]
fn odd_resolutions_round_the_cap_fan_size() {
    // Resolution 9: half of it rounds to 5, so each cap gets 5 - 2 = 3
    // interior fan vertices and 4 triangles.
    let line = FlexLine::new(
        vec![Vec2::new(0, 0), Vec2::new(100, 0)],
        10,
        Alignment::Center,
        CornerStyle::Rounded { radius: 5, resolution: 9 },
        ConnectionStyle::Unconnected,
        LineColor::Fill(white()),
    )
    .unwrap();
    let mesh = line.make_mesh();
    check_mesh_invariants(&mesh);
    assert_eq!(mesh.positions.len(), 4 + 2 * 4);
    assert_eq!(mesh.indices.len(), 6 + 2 * 12);
}
