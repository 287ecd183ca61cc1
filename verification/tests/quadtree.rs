use blight::aabb::AABB;
use blight::quadtree::{Quadtree, QuadtreeError, Spacial, TaggedPoint, CAPACITY};
use blight::vector2::Vector2;

fn tagged(x: i64, y: i64, value: u32) -> TaggedPoint {
    TaggedPoint {
        pos: Vector2::new(x, y),
        value,
    }
}

#[test]
fn test_can_create() {
    let boundary = AABB::new(Vector2::new(0, 0), 50, 40).unwrap();
    Quadtree::<TaggedPoint>::new(boundary);
}

#[test]
fn test_insert_returns_err_if_point_is_out_of_bounds() {
    let boundary = AABB::new(Vector2::new(0, 0), 50, 40).unwrap();
    let mut tree = Quadtree::<TaggedPoint>::new(boundary);

    let result = tree.insert(tagged(26, 0, 0));

    assert!(result.is_err());

    match result.unwrap_err() {
        QuadtreeError::OutOfBounds => {}
        _ => panic!("Unexpected error!"),
    }
}

#[test]
fn test_can_insert_many() {
    let boundary = AABB::new(Vector2::new(0, 0), 50, 40).unwrap();
    let mut tree = Quadtree::<TaggedPoint>::new(boundary);

    let points = vec![
        tagged(20, 0, 0),
        tagged(0, 20, 1),
        tagged(10, 0, 2),
        tagged(20, -10, 3),
        tagged(0, 10, 4),
        tagged(-20, 5, 5),
        tagged(5, 0, 6),
        tagged(10, 10, 7),
    ];

    let result = tree.insert_many(points);

    assert!(result.is_ok())
}

#[test]
fn test_can_find_single_element() {
    let boundary = AABB::new(Vector2::new(0, 0), 50, 40).unwrap();
    let mut tree = Quadtree::<TaggedPoint>::new(boundary);

    let result = tree.insert(tagged(20, 0, 0));

    assert!(result.is_ok());

    let result = tree.query_range(AABB::new(Vector2::new(10, 0), 22, 2).unwrap());

    assert!(result.len() == 1);
    assert_eq!(result[0].value, 0);
}

#[test]
fn test_returns_empty_if_none_match() {
    let boundary = AABB::new(Vector2::new(0, 0), 50, 40).unwrap();
    let mut tree = Quadtree::<TaggedPoint>::new(boundary);

    let result = tree.insert(tagged(20, 0, 0));

    assert!(result.is_ok());

    let result = tree.query_range(AABB::new(Vector2::new(-10, 0), 22, 2).unwrap());

    assert_eq!(result.len(), 0);
}

#[test]
fn test_can_find_correct_elements() {
    let boundary = AABB::new(Vector2::new(0, 0), 50, 40).unwrap();
    let mut tree = Quadtree::<TaggedPoint>::new(boundary);

    let points = vec![
        tagged(20, 0, 0),
        tagged(0, 20, 0),
        tagged(10, 0, 1),
        tagged(20, -10, 0),
        tagged(10, 5, 1),
        tagged(-20, 5, 0),
        tagged(5, 0, 0),
        tagged(10, 10, 1),
    ];

    let result = tree.insert_many(points);

    assert!(result.is_ok());

    let results = tree.query_range(AABB::new(Vector2::new(10, 0), 2, 20).unwrap());

    println!("{:?}", results);

    assert_eq!(results.len(), 3);
    results.iter().for_each(|result| {
        assert_eq!(result.value, 1);
    });
}

#[test]
fn test_subdivision_triggers_once_at_capacity_overflow() {
    let boundary = AABB::new(Vector2::new(0, 0), 50, 40).unwrap();
    let mut tree = Quadtree::<TaggedPoint>::new(boundary);

    // all five points sit in the north-west quadrant
    for (i, p) in [(-10, 5), (-12, 6), (-11, 7), (-13, 8)].iter().enumerate() {
        assert!(tree.insert(tagged(p.0, p.1, i as u32)).is_ok());
        assert!(!tree.has_children());
    }
    assert!(tree.insert(tagged(-14, 9, CAPACITY as u32)).is_ok());
    assert!(tree.has_children());

    // a further insert routes into the matching quadrant and stays findable
    assert!(tree.insert(tagged(-15, 4, 9)).is_ok());
    let found = tree.query_range(AABB::new(Vector2::new(-15, 4), 2, 2).unwrap());
    assert_eq!(found.len(), 1);
    assert_eq!(found[0].value, 9);

    let all = tree.query_range(AABB::new(Vector2::new(0, 0), 50, 40).unwrap());
    assert_eq!(all.len(), 6);
}

#[test]
fn test_failed_insert_leaves_tree_unchanged() {
    let boundary = AABB::new(Vector2::new(0, 0), 50, 40).unwrap();
    let full_range = AABB::new(Vector2::new(0, 0), 50, 40).unwrap();
    let mut tree = Quadtree::<TaggedPoint>::new(boundary);

    for i in 0..6 {
        assert!(tree.insert(tagged(i, i, i as u32)).is_ok());
    }
    let before = tree.query_range(full_range.clone()).len();
    assert_eq!(before, 6);

    let result = tree.insert(tagged(0, 21, 99));
    assert!(matches!(result, Err(QuadtreeError::OutOfBounds)));

    let after = tree.query_range(full_range).len();
    assert_eq!(after, before);
}

#[test]
fn test_insert_many_stops_at_first_failure() {
    let boundary = AABB::new(Vector2::new(0, 0), 50, 40).unwrap();
    let mut tree = Quadtree::<TaggedPoint>::new(boundary);

    let points = vec![tagged(1, 1, 0), tagged(26, 0, 1), tagged(2, 2, 2)];
    let result = tree.insert_many(points);
    assert!(matches!(result, Err(QuadtreeError::OutOfBounds)));

    // the element before the failing one stays; the rest were never tried
    let all = tree.query_range(AABB::new(Vector2::new(0, 0), 50, 40).unwrap());
    assert_eq!(all.len(), 1);
    assert_eq!(all[0].value, 0);
}

#[test]
fn test_points_serve_as_their_own_position() {
    let boundary = AABB::new(Vector2::new(0, 0), 10, 10).unwrap();
    let mut tree = Quadtree::<Vector2>::new(boundary);

    let p = Vector2::new(3, -2);
    assert_eq!(*p.position(), p);
    assert!(tree.insert(p).is_ok());

    let found = tree.query_range(AABB::new(Vector2::new(3, -2), 2, 2).unwrap());
    assert_eq!(found.len(), 1);
    assert_eq!(*found[0], p);
}

#[test]
fn test_can_insert_is_a_pure_bounds_check() {
    let boundary = AABB::new(Vector2::new(0, 0), 50, 40).unwrap();
    let tree = Quadtree::<TaggedPoint>::new(boundary);

    assert!(tree.can_insert(&tagged(25, 20, 0)).is_ok());
    assert!(tree.can_insert(&tagged(26, 0, 0)).is_err());
    assert!(tree.can_insert(&tagged(0, 21, 0)).is_err());
}

#[test]
fn test_query_preserves_bucket_order_within_a_node() {
    let boundary = AABB::new(Vector2::new(0, 0), 50, 40).unwrap();
    let mut tree = Quadtree::<TaggedPoint>::new(boundary);

    for i in 0..CAPACITY {
        assert!(tree.insert(tagged(i as i64, 0, i as u32)).is_ok());
    }
    let found = tree.query_range(AABB::new(Vector2::new(0, 0), 50, 40).unwrap());
    assert_eq!(found.len(), CAPACITY);
    for (i, e) in found.iter().enumerate() {
        assert_eq!(e.value, i as u32);
    }
}
