use ray_tracer::aabb::{Point, AABB};

#[test]
fn test_point_element() {
    let p = Point::new(1, 2, 3);
    assert_eq!(p.element(0), 1);
    assert_eq!(p.element(1), 2);
    assert_eq!(p.element(2), 3);
    assert_eq!(p.element(3), 3);
}

#[test]
fn test_union_and_empty() {
    let a = AABB::new(Point::new(0, 5, -2), Point::new(3, 6, 1));
    let b = AABB::new(Point::new(-1, 7, 0), Point::new(2, 9, 4));
    assert_eq!(a.union(&b), AABB::new(Point::new(-1, 5, -2), Point::new(3, 9, 4)));
    assert_eq!(AABB::empty().union(&a), a);
    assert_eq!(a.union(&AABB::empty()), a);
}

#[test]
fn test_extend_and_center() {
    let mut b = AABB::empty();
    b.extend(Point::new(4, -2, 8));
    assert_eq!(b, AABB::new(Point::new(4, -2, 8), Point::new(4, -2, 8)));
    b.extend(Point::new(-6, 0, 8));
    assert_eq!(b, AABB::new(Point::new(-6, -2, 8), Point::new(4, 0, 8)));
    assert_eq!(b.center_times_two(), Point::new(-2, -2, 16));
}

#[test]
fn test_longest_axis() {
    let b = |x: i64, y: i64, z: i64| AABB::new(Point::new(0, 0, 0), Point::new(x, y, z));
    assert_eq!(b(5, 1, 1).longest_axis(), 0);
    assert_eq!(b(1, 5, 1).longest_axis(), 1);
    assert_eq!(b(1, 1, 5).longest_axis(), 2);
    // ties go to the later axis
    assert_eq!(b(5, 5, 1).longest_axis(), 1);
    assert_eq!(b(5, 1, 5).longest_axis(), 2);
    assert_eq!(b(1, 5, 5).longest_axis(), 2);
    assert_eq!(b(0, 0, 0).longest_axis(), 2);
}
