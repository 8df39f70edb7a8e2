use impact::bin_packs::max_rects::{FreeRectChoiceHeuristic, MaxRectsBinPack};
use impact::rect::{DisjointRectCollection, Rect};

#[test]
fn first_insert_lands_at_origin() {
    let mut bp = MaxRectsBinPack::new(100, 100);
    let r = bp.insert(100, 50, false, FreeRectChoiceHeuristic::RectBestShortSideFit);
    assert_eq!((r.x, r.y, r.width, r.height), (0, 0, 100, 50));
    let r2 = bp.insert(30, 30, false, FreeRectChoiceHeuristic::RectBestShortSideFit);
    assert_eq!((r2.x, r2.y, r2.width, r2.height), (0, 50, 30, 30));
}

#[test]
fn insert_returns_null_sentinel_when_nothing_fits() {
    let mut bp = MaxRectsBinPack::new(64, 64);
    let r = bp.insert(65, 65, false, FreeRectChoiceHeuristic::RectBestShortSideFit);
    assert_eq!(r.height, 0);
    assert_eq!(r.width, 0);
    // failure commits nothing
    assert_eq!(bp.used_rect_list().len(), 0);
    assert_eq!(bp.used_area(), 0);
}

#[test]
fn bssf_prefers_the_tighter_short_side() {
    let mut bp = MaxRectsBinPack::new(100, 100);
    bp.insert(60, 40, false, FreeRectChoiceHeuristic::RectBestShortSideFit);
    // free rectangles: below (100 wide, 60 tall) and right (40 wide, 100 tall);
    // a 40x40 item leaves short sides 20 below but 0 on the right
    let r = bp.insert(40, 40, false, FreeRectChoiceHeuristic::RectBestShortSideFit);
    assert_eq!((r.x, r.y, r.width, r.height), (60, 0, 40, 40));
}

#[test]
fn blsf_tie_breaks_on_short_side() {
    // The long-side leftovers tie at 65, so the refined short-side
    // tie-break decides: this library assigns the freshly computed
    // secondary score instead of freezing it at its initial sentinel, so
    // the right-hand free rectangle (short leftover 5) wins over the
    // bottom one (short leftover 25).
    let mut bp = MaxRectsBinPack::new(100, 100);
    bp.insert(60, 40, false, FreeRectChoiceHeuristic::RectBestLongSideFit);
    let r = bp.insert(35, 35, false, FreeRectChoiceHeuristic::RectBestLongSideFit);
    assert_eq!((r.x, r.y, r.width, r.height), (60, 0, 35, 35));
}

#[test]
fn baf_full_tie_keeps_first_candidate() {
    let mut bp = MaxRectsBinPack::new(100, 100);
    bp.insert(60, 60, false, FreeRectChoiceHeuristic::RectBestAreaFit);
    // both free rects have area 4000 and short-side fit 10: the first in
    // scan order (the bottom one) wins
    let r = bp.insert(30, 30, false, FreeRectChoiceHeuristic::RectBestAreaFit);
    assert_eq!((r.x, r.y, r.width, r.height), (0, 60, 30, 30));
}

#[test]
fn bottom_left_settles_low_then_left() {
    let mut bp = MaxRectsBinPack::new(100, 100);
    bp.insert(50, 20, false, FreeRectChoiceHeuristic::RectBottomLeftRule);
    // right free rect gives top edge 10, bottom free rect gives 30
    let r = bp.insert(10, 10, false, FreeRectChoiceHeuristic::RectBottomLeftRule);
    assert_eq!((r.x, r.y, r.width, r.height), (50, 0, 10, 10));
}

#[test]
fn contact_point_prefers_touching_edges() {
    let mut bp = MaxRectsBinPack::new(100, 100);
    bp.insert(50, 50, false, FreeRectChoiceHeuristic::RectContactPointRule);
    // both corners score 150; the first candidate in scan order wins
    let r = bp.insert(50, 50, false, FreeRectChoiceHeuristic::RectContactPointRule);
    assert_eq!((r.x, r.y, r.width, r.height), (0, 50, 50, 50));
}

#[test]
fn rotation_swaps_dimensions_when_only_the_rotated_item_fits() {
    let mut bp = MaxRectsBinPack::new(100, 50);
    let r = bp.insert(40, 80, true, FreeRectChoiceHeuristic::RectBestShortSideFit);
    assert_eq!((r.x, r.y, r.width, r.height), (0, 0, 80, 40));
    // without rotation the same item cannot be placed
    let mut bp2 = MaxRectsBinPack::new(100, 50);
    let r2 = bp2.insert(40, 80, false, FreeRectChoiceHeuristic::RectBestShortSideFit);
    assert_eq!(r2.height, 0);
}

#[test]
fn insert_list_places_globally_best_first() {
    let mut bp = MaxRectsBinPack::new(100, 100);
    let rects = vec![
        Rect { x: 0, y: 0, width: 30, height: 30 },
        Rect { x: 0, y: 0, width: 60, height: 60 },
    ];
    let dst = bp.insert_list(&rects, false, FreeRectChoiceHeuristic::RectBestShortSideFit);
    assert_eq!(dst.len(), 2);
    // the 60x60 item scores better in the empty bin and goes first
    assert_eq!((dst[0].x, dst[0].y, dst[0].width, dst[0].height), (0, 0, 60, 60));
    assert_eq!((dst[1].x, dst[1].y, dst[1].width, dst[1].height), (0, 60, 30, 30));
}

#[test]
fn insert_list_stops_when_nothing_fits() {
    let mut bp = MaxRectsBinPack::new(50, 50);
    let rects = vec![
        Rect { x: 0, y: 0, width: 40, height: 40 },
        Rect { x: 0, y: 0, width: 40, height: 40 },
    ];
    let dst = bp.insert_list(&rects, false, FreeRectChoiceHeuristic::RectBestShortSideFit);
    assert_eq!(dst.len(), 1);
}

#[test]
fn placements_never_overlap_and_stay_inside_the_bin() {
    let mut bp = MaxRectsBinPack::new(128, 128);
    let sizes = [
        (50, 30),
        (40, 40),
        (60, 20),
        (20, 60),
        (30, 30),
        (25, 45),
        (45, 25),
        (10, 10),
    ];
    let mut checker = DisjointRectCollection::new();
    for (w, h) in sizes.iter() {
        let r = bp.insert(*w, *h, true, FreeRectChoiceHeuristic::RectBestShortSideFit);
        if r.height != 0 {
            assert!(r.x >= 0 && r.y >= 0);
            assert!(r.x + r.width <= 128 && r.y + r.height <= 128);
            assert!(checker.add(&r));
        }
    }
    assert!(checker.rects.len() >= 2);
}

#[test]
fn free_list_never_keeps_a_contained_rectangle() {
    let mut bp = MaxRectsBinPack::new(128, 128);
    let sizes = [(50, 30), (40, 40), (60, 20), (20, 60), (30, 30)];
    for (w, h) in sizes.iter() {
        bp.insert(*w, *h, false, FreeRectChoiceHeuristic::RectBestShortSideFit);
        let free = bp.free_rect_list();
        for i in 0..free.len() {
            for j in 0..free.len() {
                if i != j {
                    assert!(!free[i].is_contained_in(&free[j]));
                }
            }
        }
    }
}

#[test]
fn used_area_sums_the_placements_and_occupancy_is_a_ratio() {
    let mut bp = MaxRectsBinPack::new(100, 100);
    bp.insert(60, 40, false, FreeRectChoiceHeuristic::RectBestShortSideFit);
    bp.insert(30, 30, false, FreeRectChoiceHeuristic::RectBestShortSideFit);
    assert_eq!(bp.used_area(), 60 * 40 + 30 * 30);
    let occupancy = bp.used_area() as f32 / (bp.width() * bp.height()) as f32;
    assert!(occupancy >= 0.0 && occupancy <= 1.0);
    assert!((occupancy - 0.33).abs() < 0.001);
}

#[test]
fn used_rect_list_records_placement_order() {
    let mut bp = MaxRectsBinPack::new(100, 100);
    bp.insert(10, 10, false, FreeRectChoiceHeuristic::RectBottomLeftRule);
    bp.insert(20, 20, false, FreeRectChoiceHeuristic::RectBottomLeftRule);
    let used = bp.used_rect_list();
    assert_eq!(used.len(), 2);
    assert_eq!((used[0].width, used[0].height), (10, 10));
    assert_eq!((used[1].width, used[1].height), (20, 20));
}
