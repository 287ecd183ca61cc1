use blight::circle::Circle;
use blight::sphere::Sphere;
use blight::vector2::Vector2;

#[test]
fn circle_test_spehere_intersects_itself() {
    let sphere = Circle::new(Vector2::new(0, 0), 5);
    assert!(sphere.intersects(&sphere));
}

#[test]
fn circle_test_sphere_sphere_intersection() {
    let lhs = Circle::new(Vector2::new(3, 2), 5);
    let rhs = Circle::new(Vector2::new(10, 0), 5);

    assert!(lhs.intersects(&rhs));
    assert!(rhs.intersects(&lhs));
}

#[test]
fn circle_test_sphere_sphere_too_far_are_not_intersecting() {
    let lhs = Circle::new(Vector2::new(0, 0), 5);
    let rhs = Circle::new(Vector2::new(10, 0), 4);

    assert!(!lhs.intersects(&rhs));
    assert!(!rhs.intersects(&lhs));
}

#[test]
fn sphere_test_spehere_intersects_itself() {
    let sphere = Sphere::new(Vector2::new(0, 0), 5);
    assert!(sphere.intersects(&sphere));
}

#[test]
fn sphere_test_sphere_sphere_intersection() {
    let lhs = Sphere::new(Vector2::new(0, 0), 5);
    let rhs = Sphere::new(Vector2::new(10, 0), 5);

    assert!(lhs.intersects(&rhs));
    assert!(rhs.intersects(&lhs));
}

#[test]
fn sphere_test_sphere_sphere_too_far_are_not_intersecting() {
    let lhs = Sphere::new(Vector2::new(0, 0), 5);
    let rhs = Sphere::new(Vector2::new(10, 0), 4);

    assert!(!lhs.intersects(&rhs));
    assert!(!rhs.intersects(&lhs));
}
