use rustrl::Rect;

#[test]
fn rect_new_sets_corners() {
    let r = Rect::new(10, 20, 5, 7);
    assert_eq!(r.x1, 10);
    assert_eq!(r.y1, 20);
    assert_eq!(r.x2, 15);
    assert_eq!(r.y2, 27);
}

#[test]
fn rect_center_is_floor_midpoint() {
    let r = Rect::new(10, 20, 5, 7);
    let (cx, cy) = r.center();
    assert_eq!(cx, 12);
    assert_eq!(cy, 23);
}

#[test]
fn rect_intersect_overlapping() {
    let a = Rect::new(0, 0, 10, 10);
    let b = Rect::new(5, 5, 10, 10);
    assert!(a.intersect(&b));
    assert!(b.intersect(&a));
}

#[test]
fn rect_intersect_touching_edges_counts() {
    let a = Rect::new(0, 0, 10, 10);
    let b = Rect::new(10, 0, 5, 5);
    assert!(a.intersect(&b));
}

#[test]
fn rect_intersect_disjoint() {
    let a = Rect::new(0, 0, 10, 10);
    let b = Rect::new(11, 11, 5, 5);
    assert!(!a.intersect(&b));
    assert!(!b.intersect(&a));
}
