use flexline2d::Orientation;
use flexline2d::Vec2;
use flexline2d::calc_left_side_segment;
use flexline2d::calc_right_side_segment;
use flexline2d::intersection_point;
use flexline2d::orientation_test;
use flexline2d::project_point_onto_line;

#[test]
fn vector_utils_test_inter1() {
    let p1 = Vec2::new(0, 0);
    let d1 = Vec2::new(1, 0);
    let p2 = Vec2::new(2, 2);
    let d2 = Vec2::new(0, -1);

    let res = intersection_point(p1, d1, p2, d2).unwrap();
    assert_eq!(res, Vec2::new(2, 0));
}

#[test]
fn vector_utils_test_inter2() {
    let p1 = Vec2::new(0, 0);
    let d1 = Vec2::new(1, 0);
    let p2 = Vec2::new(2, 2);
    let d2 = Vec2::new(-1, 0);

    let res = intersection_point(p1, d1, p2, d2);
    assert_eq!(res, None);
}

#[test]
fn vector_utils_test_inter3() {
    let p1 = Vec2::new(0, 0);
    let d1 = Vec2::new(10, 0);
    let p2 = Vec2::new(-1, 2);
    let d2 = Vec2::new(1, -1);

    let res = intersection_point(p1, d1, p2, d2).unwrap();
    assert_eq!(res, Vec2::new(1, 0));
}

#[test]
fn vector_extensions_test_inter1() {
    let p1 = Vec2::new(0, 0);
    let d1 = Vec2::new(1, 0);
    let p2 = Vec2::new(2, 2);
    let d2 = Vec2::new(0, -1);

    let res = intersection_point(p1, d1, p2, d2).unwrap();
    assert_eq!(res, Vec2::new(2, 0));
}

#[test]
fn vector_extensions_test_inter2() {
    let p1 = Vec2::new(0, 0);
    let d1 = Vec2::new(1, 0);
    let p2 = Vec2::new(2, 2);
    let d2 = Vec2::new(-1, 0);

    let res = intersection_point(p1, d1, p2, d2);
    assert_eq!(res, None);
}

#[test]
fn vector_extensions_test_inter3() {
    let p1 = Vec2::new(0, 0);
    let d1 = Vec2::new(10, 0);
    let p2 = Vec2::new(-1, 2);
    let d2 = Vec2::new(1, -1);

    let res = intersection_point(p1, d1, p2, d2).unwrap();
    assert_eq!(res, Vec2::new(1, 0));
}

#[test]
fn identical_lines_have_no_intersection() {
    let p = Vec2::new(3, 4);
    let d = Vec2::new(5, 7);
    assert_eq!(intersection_point(p, d, p, d), None);

    let p = Vec2::new(-100, 250);
    let d = Vec2::new(0, -3);
    assert_eq!(intersection_point(p, d, p, d), None);
}

#[test]
fn orientation_classifies_turns() {
    let a = Vec2::new(0, 0);
    let b = Vec2::new(10, 0);
    let left = Vec2::new(20, 5);
    let right = Vec2::new(20, -5);
    let ahead = Vec2::new(20, 0);
    assert_eq!(orientation_test(a, b, left), Orientation::Left);
    assert_eq!(orientation_test(a, b, right), Orientation::Right);
    assert_eq!(orientation_test(a, b, ahead), Orientation::Straight);
}

#[test]
fn orientation_flips_under_reversal_and_survives_a_round_trip() {
    let a = Vec2::new(1, 2);
    let b = Vec2::new(7, 3);
    let c = Vec2::new(4, 9);
    let forward = orientation_test(a, b, c);
    let reversed = orientation_test(c, b, a);
    assert_eq!(forward, Orientation::Left);
    assert_eq!(reversed, Orientation::Right);
    assert_eq!(orientation_test(a, b, c), forward);

    let flat_forward = orientation_test(Vec2::new(0, 0), Vec2::new(3, 3), Vec2::new(9, 9));
    let flat_reversed = orientation_test(Vec2::new(9, 9), Vec2::new(3, 3), Vec2::new(0, 0));
    assert_eq!(flat_forward, Orientation::Straight);
    assert_eq!(flat_reversed, Orientation::Straight);
}

#[test]
fn side_segments_offset_by_the_width() {
    let a = Vec2::new(0, 0);
    let b = Vec2::new(10, 0);
    let left = calc_left_side_segment(a, b, 2).unwrap();
    assert_eq!(left, (Vec2::new(0, 2), Vec2::new(10, 2)));
    let right = calc_right_side_segment(a, b, 2).unwrap();
    assert_eq!(right, (Vec2::new(0, -2), Vec2::new(10, -2)));
}

#[test]
fn zero_length_segment_has_no_sides() {
    let p = Vec2::new(5, 5);
    assert_eq!(calc_left_side_segment(p, p, 3), None);
    assert_eq!(calc_right_side_segment(p, p, 3), None);
}

#[test]
fn projection_lands_on_the_line() {
    let p = Vec2::new(3, 7);
    let a = Vec2::new(0, 0);
    let b = Vec2::new(10, 0);
    assert_eq!(project_point_onto_line(p, a, b), Vec2::new(3, 0));

    let q = Vec2::new(-4, 9);
    let c = Vec2::new(2, -5);
    let d = Vec2::new(2, 11);
    assert_eq!(project_point_onto_line(q, c, d), Vec2::new(2, 9));
}
