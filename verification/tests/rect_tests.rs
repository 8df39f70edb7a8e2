use impact::rect::{DisjointRectCollection, Rect, RectSize};

fn r(x: i32, y: i32, width: i32, height: i32) -> Rect {
    Rect { x, y, width, height }
}

#[test]
fn compare_short_side_orders_by_smaller_side_first() {
    let a = r(0, 0, 10, 3);
    let b = r(0, 0, 4, 20);
    // shorter sides: 3 vs 4
    assert_eq!(a.compare_rect_short_side(&b), std::cmp::Ordering::Less);
    assert_eq!(b.compare_rect_short_side(&a), std::cmp::Ordering::Greater);
}

#[test]
fn compare_short_side_tie_breaks_on_larger_side() {
    let a = r(0, 0, 5, 8);
    let b = r(0, 0, 9, 5);
    // shorter sides equal (5); longer sides: 8 vs 9
    assert_eq!(a.compare_rect_short_side(&b), std::cmp::Ordering::Less);
    let c = r(1, 2, 8, 5);
    assert_eq!(a.compare_rect_short_side(&c), std::cmp::Ordering::Equal);
}

#[test]
fn node_sort_cmp_is_lexicographic() {
    assert_eq!(
        Rect::node_sort_cmp(&r(1, 9, 9, 9), &r(2, 0, 0, 0)),
        std::cmp::Ordering::Less
    );
    assert_eq!(
        Rect::node_sort_cmp(&r(1, 2, 9, 9), &r(1, 3, 0, 0)),
        std::cmp::Ordering::Less
    );
    assert_eq!(
        Rect::node_sort_cmp(&r(1, 2, 3, 9), &r(1, 2, 4, 0)),
        std::cmp::Ordering::Less
    );
    assert_eq!(
        Rect::node_sort_cmp(&r(1, 2, 3, 4), &r(1, 2, 3, 5)),
        std::cmp::Ordering::Less
    );
    assert_eq!(
        Rect::node_sort_cmp(&r(1, 2, 3, 4), &r(1, 2, 3, 4)),
        std::cmp::Ordering::Equal
    );
    assert_eq!(
        Rect::node_sort_cmp(&r(2, 0, 0, 0), &r(1, 9, 9, 9)),
        std::cmp::Ordering::Greater
    );
}

#[test]
fn is_contained_in_checks_all_four_edges() {
    let outer = r(0, 0, 10, 10);
    assert!(r(2, 3, 4, 5).is_contained_in(&outer));
    assert!(outer.is_contained_in(&outer));
    assert!(!r(-1, 0, 4, 4).is_contained_in(&outer));
    assert!(!r(8, 0, 4, 4).is_contained_in(&outer));
    assert!(!r(0, 8, 4, 4).is_contained_in(&outer));
    assert!(!outer.is_contained_in(&r(2, 3, 4, 5)));
}

#[test]
fn disjoint_collection_rejects_overlap() {
    let mut c = DisjointRectCollection::new();
    assert!(c.add(&r(0, 0, 10, 10)));
    assert!(c.add(&r(10, 0, 5, 5)));
    // overlaps the first member
    assert!(!c.add(&r(5, 5, 10, 10)));
    assert_eq!(c.rects.len(), 2);
    assert!(c.disjoint(&r(20, 20, 1, 1)));
    assert!(!c.disjoint(&r(0, 0, 1, 1)));
}

#[test]
fn disjoint_collection_ignores_degenerate_rects() {
    let mut c = DisjointRectCollection::new();
    assert!(c.add(&r(0, 0, 10, 10)));
    // zero-area rectangles are accepted but never stored
    assert!(c.add(&r(0, 0, 0, 10)));
    assert!(c.add(&r(3, 3, 5, 0)));
    assert_eq!(c.rects.len(), 1);
}

#[test]
fn disjoint_collection_clear_empties_it() {
    let mut c = DisjointRectCollection::new();
    assert!(c.add(&r(0, 0, 4, 4)));
    c.clear();
    assert_eq!(c.rects.len(), 0);
    assert!(c.add(&r(0, 0, 4, 4)));
}

#[test]
fn rect_size_holds_dimensions() {
    let s = RectSize { width: 7, height: 9 };
    assert_eq!(s.width, 7);
    assert_eq!(s.height, 9);
}

#[test]
fn default_rect_is_the_null_sentinel() {
    let d = Rect::default();
    assert_eq!((d.x, d.y, d.width, d.height), (0, 0, 0, 0));
}
