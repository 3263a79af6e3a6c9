use abyss_map::rect::Rect;

#[test]
fn new_uses_exclusive_corner() {
    let r = Rect::new(3, 4, 5, 6);
    assert_eq!(r.x1, 3);
    assert_eq!(r.y1, 4);
    assert_eq!(r.x2, 8);
    assert_eq!(r.y2, 10);
}

#[test]
fn center_is_floor_midpoint() {
    let r = Rect::new(0, 0, 5, 5);
    assert_eq!(r.center(), (2, 2));
    let r = Rect::new(10, 20, 4, 8);
    assert_eq!(r.center(), (12, 24));
}

#[test]
fn overlapping_rectangles_intersect() {
    let a = Rect::new(0, 0, 10, 10);
    let b = Rect::new(5, 5, 10, 10);
    assert!(a.does_intersect(&b));
    assert!(b.does_intersect(&a));
}

#[test]
fn distant_rectangles_do_not_intersect() {
    let a = Rect::new(0, 0, 5, 5);
    let b = Rect::new(7, 0, 5, 5);
    assert!(!a.does_intersect(&b));
    assert!(!b.does_intersect(&a));
}

#[test]
fn boundary_touch_counts_as_intersection() {
    let a = Rect::new(0, 0, 5, 5);
    let b = Rect::new(5, 0, 5, 5);
    assert!(a.does_intersect(&b));
    assert!(b.does_intersect(&a));
    let below = Rect::new(0, 5, 5, 5);
    assert!(a.does_intersect(&below));
    assert!(below.does_intersect(&a));
}

#[test]
fn intersection_is_symmetric_over_samples() {
    let mut rects = Vec::new();
    for i in 0..6 {
        for j in 0..6 {
            rects.push(Rect::new(i * 3, j * 2, 1 + i, 1 + j + 1));
        }
    }
    for a in rects.iter() {
        for b in rects.iter() {
            assert_eq!(a.does_intersect(b), b.does_intersect(a));
        }
    }
}
