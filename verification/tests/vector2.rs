use blight::vector2::Vector2;

#[test]
fn test_simple_add() {
    let lhs = Vector2::new(0, 0);
    let rhs = Vector2::new(1, 3);

    let result = lhs.add(&rhs);

    assert_eq!(result.x, 1);
    assert_eq!(result.y, 3);
}

#[test]
fn test_simple_sub() {
    let lhs = Vector2::new(0, 0);
    let rhs = Vector2::new(1, 3);

    let result = lhs.sub(&rhs);

    assert_eq!(result.x, -1);
    assert_eq!(result.y, -3);
}

#[test]
fn test_simple_scalar_mul() {
    let vec = Vector2::new(2, 3);
    let result = vec.scale(2);

    assert_eq!(result.x, 4);
    assert_eq!(result.y, 6);
}

#[test]
fn test_dot_product() {
    let lhs = Vector2::new(1, 2);
    let rhs = Vector2::new(1, 3);

    let result = lhs.dot(&rhs);

    assert_eq!(result, 7);
}

#[test]
fn test_length() {
    let vec = Vector2::new(-3, 4);

    let result = vec.length();

    assert_eq!(result, 5);
}

#[test]
fn test_length_rounds_down() {
    assert_eq!(Vector2::new(0, 0).length(), 0);
    assert_eq!(Vector2::new(1, 1).length(), 1);
    assert_eq!(Vector2::new(3, 3).length(), 4);
}

#[test]
fn test_orthogonal() {
    let vec = Vector2::new(1, 0);
    let result = vec.orthogonal();

    assert_eq!(result, Vector2::new(0, 1));
    assert_eq!(Vector2::new(2, 5).orthogonal(), Vector2::new(-5, 2));
}

#[test]
fn test_from_array() {
    let vec = Vector2::from_array([7, -9]);
    assert_eq!(vec.x, 7);
    assert_eq!(vec.y, -9);
}

#[test]
fn test_get_and_set() {
    let mut vec = Vector2::new(4, 8);
    assert_eq!(vec.get(0), 4);
    assert_eq!(vec.get(1), 8);
    vec.set(-1, -2);
    assert_eq!(vec.get(0), -1);
    assert_eq!(vec.get(1), -2);
}
