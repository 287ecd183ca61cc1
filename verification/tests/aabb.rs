use blight::aabb::AABB;
use blight::vector2::Vector2;

#[test]
fn test_aabb_intersects_itself() {
    let aabb = AABB::new(Vector2::new(-1, 0), 2, 1).unwrap();
    assert!(aabb.intersects(&aabb));
}

#[test]
fn aabb_test_simple_intersection_x() {
    let lhs = AABB::new(Vector2::new(-10, 0), 20, 10).unwrap();
    let rhs = AABB::new(Vector2::new(10, 0), 21, 10).unwrap();

    assert!(lhs.intersects(&rhs));
    assert!(rhs.intersects(&lhs));
}

#[test]
fn aabb_test_simple_intersection_y() {
    let lhs = AABB::new(Vector2::new(0, -10), 10, 20).unwrap();
    let rhs = AABB::new(Vector2::new(0, 10), 10, 21).unwrap();

    assert!(lhs.intersects(&rhs));
    assert!(rhs.intersects(&lhs));
}

#[test]
fn aabb_test_simple_intersection_xy() {
    let lhs = AABB::new(Vector2::new(10, -10), 21, 20).unwrap();
    let rhs = AABB::new(Vector2::new(-10, 10), 20, 21).unwrap();

    assert!(lhs.intersects(&rhs));
    assert!(rhs.intersects(&lhs));
}

#[test]
fn aabb_test_simple_non_intersecting() {
    let lhs = AABB::new(Vector2::new(-10, 0), 10, 10).unwrap();
    let rhs = AABB::new(Vector2::new(10, 0), 10, 10).unwrap();

    assert!(!lhs.intersects(&rhs));
    assert!(!rhs.intersects(&lhs));
}

#[test]
fn test_width_has_to_be_positive() {
    assert!(AABB::new(Vector2::new(0, 0), -1, 1).is_none());
    assert!(AABB::new(Vector2::new(0, 0), 0, 1).is_none());
}

#[test]
fn test_height_has_to_be_positive() {
    assert!(AABB::new(Vector2::new(0, 0), 1, -1).is_none());
    assert!(AABB::new(Vector2::new(0, 0), 1, 0).is_none());
}

#[test]
fn test_closest_points() {
    // pairs of input and expected output
    let test_cases = [
        (Vector2::new(-21, 11), Vector2::new(-20, 10)),
        (Vector2::new(-22, 5), Vector2::new(-20, 5)),
        (Vector2::new(-21, -11), Vector2::new(-20, -10)),
        (Vector2::new(25, -8), Vector2::new(20, -8)),
        (Vector2::new(10, 15), Vector2::new(10, 10)),
        (Vector2::new(42, 18), Vector2::new(20, 10)),
    ];

    let aabb = AABB::new(Vector2::new(0, 0), 40, 20).unwrap();

    for (input, expected) in test_cases.iter() {
        let actual = aabb.closest_point(input);
        assert_eq!(actual, *expected);
        // the projection of an outside point lands on the box
        assert!(aabb.contains(&actual));
    }
}

#[test]
fn test_closest_point_intersecting_aabb() {
    let aabb = AABB::new(Vector2::new(0, 0), 40, 20).unwrap();
    let actual = aabb.closest_point(&Vector2::new(5, 5));
    assert_eq!(actual, Vector2::new(5, 5));
}

#[test]
fn test_contains_boundary_points() {
    let aabb = AABB::new(Vector2::new(0, 0), 40, 20).unwrap();
    assert!(aabb.contains(&Vector2::new(20, 10)));
    assert!(aabb.contains(&Vector2::new(-20, -10)));
    assert!(!aabb.contains(&Vector2::new(21, 0)));
    assert!(!aabb.contains(&Vector2::new(0, 11)));
}

#[test]
fn test_odd_sizes_round_half_extent_up() {
    let aabb = AABB::new(Vector2::new(0, 0), 5, 3).unwrap();
    assert_eq!(*aabb.get_radius(), Vector2::new(3, 2));
    assert_eq!(*aabb.get_center(), Vector2::new(0, 0));
}

#[test]
fn test_touching_boxes_intersect() {
    let lhs = AABB::new(Vector2::new(0, 0), 10, 10).unwrap();
    let rhs = AABB::new(Vector2::new(10, 0), 10, 10).unwrap();
    assert!(lhs.intersects(&rhs));
    assert!(rhs.intersects(&lhs));
}
