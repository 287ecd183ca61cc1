use blight::matrix::{Matrix22, Matrix33};

#[test]
fn test_2by2_creation() {
    let data = vec![0, 1, 2, 3];
    assert!(Matrix22::new(data).is_some());
}

#[test]
fn test_equality() {
    let data = vec![0, 1, 2, 3];
    let lhs = Matrix22::new(data.clone()).unwrap();
    let rhs = Matrix22::new(data.clone()).unwrap();
    assert_eq!(lhs, rhs);
}

#[test]
fn test_inequality() {
    let data = vec![0, 1, 2, 3];
    let lhs = Matrix22::new(data).unwrap();
    let data = vec![1, 1, 2, 3];
    let rhs = Matrix22::new(data).unwrap();
    assert_ne!(lhs, rhs);
}

#[test]
fn test_wrong_buffer_size_is_rejected() {
    assert!(Matrix22::new(vec![1, 2, 3]).is_none());
    assert!(Matrix33::new(vec![0, 1, 2, 3]).is_none());
    assert!(Matrix33::new(vec![0, 1, 2, 3, 4, 5, 6, 7, 8]).is_some());
}

#[test]
fn test_matrix_get_and_set() {
    let mut m = Matrix22::new(vec![0, 1, 2, 3]).unwrap();
    assert_eq!(m.get(0, 0), 0);
    assert_eq!(m.get(0, 1), 1);
    assert_eq!(m.get(1, 0), 2);
    assert_eq!(m.get(1, 1), 3);
    m.set(1, 0, 42);
    assert_eq!(m.get(1, 0), 42);
    assert_eq!(m.get(0, 0), 0);
}
