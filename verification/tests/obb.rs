use blight::aabb::AABB;
use blight::matrix::Matrix22;
use blight::obb::OBB2D;
use blight::vector2::Vector2;

#[test]
fn test_obb_intersects_itself() {
    let obb = OBB2D::new(
        Vector2::new(0, 0),
        [Vector2::new(1, 1), Vector2::new(-1, 1)],
        Vector2::new(2, 3),
    )
    .unwrap();

    assert!(obb.intersects(&obb));
}

#[test]
fn test_non_rotated_obb_intersection_not_overlapping() {
    let lhs = OBB2D::from_aabb(&AABB::new(Vector2::new(0, 0), 2, 2).unwrap());
    let rhs = OBB2D::from_aabb(&AABB::new(Vector2::new(5, 0), 2, 2).unwrap());

    assert!(!lhs.intersects(&rhs));
    assert!(!rhs.intersects(&lhs));
}

#[test]
fn obb_test_simple_intersection_x() {
    let lhs = AABB::new(Vector2::new(-10, 0), 20, 10).unwrap();
    let rhs = AABB::new(Vector2::new(10, 0), 21, 10).unwrap();

    assert!(lhs.intersects(&rhs));
    assert!(rhs.intersects(&lhs));

    let lhs = OBB2D::from_aabb(&lhs);
    let rhs = OBB2D::from_aabb(&rhs);

    assert!(lhs.intersects(&rhs));
    assert!(rhs.intersects(&lhs));
}

#[test]
fn obb_test_simple_intersection_y() {
    let lhs = AABB::new(Vector2::new(0, -10), 10, 20).unwrap();
    let rhs = AABB::new(Vector2::new(0, 10), 10, 21).unwrap();

    assert!(lhs.intersects(&rhs));
    assert!(rhs.intersects(&lhs));

    let lhs = OBB2D::from_aabb(&lhs);
    let rhs = OBB2D::from_aabb(&rhs);

    assert!(lhs.intersects(&rhs));
    assert!(rhs.intersects(&lhs));
}

#[test]
fn obb_test_simple_intersection_xy() {
    let lhs = AABB::new(Vector2::new(10, -10), 21, 20).unwrap();
    let rhs = AABB::new(Vector2::new(-10, 10), 20, 21).unwrap();

    assert!(lhs.intersects(&rhs));
    assert!(rhs.intersects(&lhs));

    let lhs = OBB2D::from_aabb(&lhs);
    let rhs = OBB2D::from_aabb(&rhs);

    assert!(lhs.intersects(&rhs));
    assert!(rhs.intersects(&lhs));
}

#[test]
fn obb_test_simple_non_intersecting() {
    let lhs = AABB::new(Vector2::new(-10, 0), 10, 10).unwrap();
    let rhs = AABB::new(Vector2::new(10, 0), 10, 10).unwrap();

    assert!(!lhs.intersects(&rhs));
    assert!(!rhs.intersects(&lhs));

    let lhs = OBB2D::from_aabb(&lhs);
    let rhs = OBB2D::from_aabb(&rhs);

    assert!(!lhs.intersects(&rhs));
    assert!(!rhs.intersects(&lhs));
}

#[test]
fn test_simple_rotated_non_intersecting() {
    let lhs = OBB2D::from_points(&vec![
        Vector2::new(3, 1),
        Vector2::new(2, 2),
        Vector2::new(4, 4),
        Vector2::new(5, 3),
    ])
    .unwrap();

    let rhs = OBB2D::from_points(&vec![
        Vector2::new(6, 1),
        Vector2::new(8, 1),
        Vector2::new(8, 3),
        Vector2::new(6, 3),
    ])
    .unwrap();

    assert!(!lhs.intersects(&rhs));
    assert!(!rhs.intersects(&lhs));
}

#[test]
fn test_simple_point_fitting() {
    let points = vec![
        Vector2::new(3, 1),
        Vector2::new(2, 2),
        Vector2::new(4, 4),
        Vector2::new(5, 3),
    ];

    let result = OBB2D::from_points(&points).unwrap();

    // the fitted box, in projection form: axes along the first edge of the
    // square and its orthogonal; these encode the box with center
    // (3.5, 2.5) and world half-widths 1/sqrt(2) and 2/sqrt(2)
    assert_eq!(
        *result.get_local(),
        [Vector2::new(1, -1), Vector2::new(1, 1)]
    );
    assert_eq!(*result.get_lo(), Vector2::new(0, 4));
    assert_eq!(*result.get_hi(), Vector2::new(2, 8));

    let result = OBB2D::from_points(&vec![
        Vector2::new(6, 3),
        Vector2::new(8, 3),
        Vector2::new(8, 1),
        Vector2::new(6, 1),
    ])
    .unwrap();

    // an axis-aligned rectangle: axes along the first edge (pointing in
    // negative x) and its orthogonal; the box has center (7, 2) and world
    // half-widths 1 and 1
    assert_eq!(
        *result.get_local(),
        [Vector2::new(-2, 0), Vector2::new(0, -2)]
    );
    assert_eq!(*result.get_lo(), Vector2::new(-16, -6));
    assert_eq!(*result.get_hi(), Vector2::new(-12, -2));
}

#[test]
fn test_simple_rotated_intersecting() {
    let lhs = OBB2D::from_points(&vec![
        Vector2::new(418, 30),
        Vector2::new(318, 130),
        Vector2::new(518, 330),
        Vector2::new(618, 230),
    ])
    .unwrap();

    let rhs = OBB2D::from_points(&vec![
        Vector2::new(600, 100),
        Vector2::new(800, 100),
        Vector2::new(800, 300),
        Vector2::new(600, 300),
    ])
    .unwrap();

    assert!(lhs.intersects(&rhs));
    assert!(rhs.intersects(&lhs));
}

#[test]
fn test_too_few_points_panic() {
    let points = vec![Vector2::new(3, 1), Vector2::new(5, 3)];
    assert!(OBB2D::from_points(&points).is_none());
}

#[test]
fn test_negative_extent_is_rejected() {
    let r = OBB2D::new(
        Vector2::new(0, 0),
        [Vector2::new(1, 0), Vector2::new(0, 1)],
        Vector2::new(-1, 2),
    );
    assert!(r.is_none());
}

#[test]
fn test_rotation_matrix_lists_the_axes() {
    let obb = OBB2D::from_aabb(&AABB::new(Vector2::new(0, 0), 4, 4).unwrap());
    let m = obb.rotation_matrix();
    let expected = Matrix22::new(vec![1, 0, 0, 1]).unwrap();
    assert_eq!(m, expected);
}

#[test]
fn test_intersects_aabb_matches_aabb_test() {
    let a = AABB::new(Vector2::new(0, 0), 4, 4).unwrap();
    let b = AABB::new(Vector2::new(3, 0), 4, 4).unwrap();
    let c = AABB::new(Vector2::new(9, 0), 4, 4).unwrap();
    let oa = OBB2D::from_aabb(&a);

    assert!(a.intersects(&b));
    assert!(oa.intersects_aabb(&b));
    assert!(!a.intersects(&c));
    assert!(!oa.intersects_aabb(&c));
}

#[test]
fn test_fit_contains_all_points() {
    let points = vec![
        Vector2::new(0, 0),
        Vector2::new(7, 2),
        Vector2::new(9, 9),
        Vector2::new(2, 6),
    ];
    let b = OBB2D::from_points(&points).unwrap();
    let local = *b.get_local();
    let lo = *b.get_lo();
    let hi = *b.get_hi();
    for p in points.iter() {
        let du = p.dot(&local[0]);
        let dv = p.dot(&local[1]);
        assert!(lo.x <= du && du <= hi.x);
        assert!(lo.y <= dv && dv <= hi.y);
    }
}
