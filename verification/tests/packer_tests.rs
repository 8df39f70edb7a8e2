use impact::bin_packs::max_rects::FreeRectChoiceHeuristic;
use impact::image_wrapper::ImageWrapper;
use impact::packer::Packer;
use impact::rect::{DisjointRectCollection, Rect};

fn image(name: &str, width: i32, height: i32, fill: u8, hash_value: u64) -> ImageWrapper {
    ImageWrapper {
        name: name.to_string(),
        width,
        height,
        frame_x: 0,
        frame_y: 0,
        frame_w: width,
        frame_h: height,
        data: vec![fill; (width * height * 4) as usize],
        hash_value,
    }
}

fn placed_rect(p: &impact::packer::Point, img: &ImageWrapper, pad: i32) -> Rect {
    if p.rot {
        Rect { x: p.x, y: p.y, width: img.height + pad, height: img.width + pad }
    } else {
        Rect { x: p.x, y: p.y, width: img.width + pad, height: img.height + pad }
    }
}

#[test]
fn scenario_three_rects_all_fit() {
    // bin 100x100, pad 0, best short side fit, no rotation; the queue is
    // sorted ascending by area and consumed from the end (largest first)
    let mut queue = vec![
        image("a", 30, 30, 1, 1),
        image("b", 60, 40, 2, 2),
        image("c", 50, 50, 3, 3),
    ];
    let mut packer = Packer::new(100, 100, 0);
    packer.pack(
        &mut queue,
        false,
        false,
        FreeRectChoiceHeuristic::RectBestShortSideFit,
    );

    assert!(queue.is_empty());
    assert_eq!(packer.points.len(), 3);
    assert_eq!(packer.images.len(), 3);
    // consumption order: largest first
    assert_eq!(packer.images[0].name, "c");
    assert_eq!(packer.images[1].name, "b");
    assert_eq!(packer.images[2].name, "a");

    // the placements never overlap
    let mut checker = DisjointRectCollection::new();
    let mut max_x = 0;
    let mut max_y = 0;
    for i in 0..3 {
        let r = placed_rect(&packer.points[i], &packer.images[i], 0);
        assert!(r.x >= 0 && r.y >= 0 && r.x + r.width <= 100 && r.y + r.height <= 100);
        assert!(checker.add(&r));
        max_x = max_x.max(r.x + r.width);
        max_y = max_y.max(r.y + r.height);
    }

    // the shrunk bin still covers the tight bounding box
    assert!(packer.width <= 100 && packer.height <= 100);
    assert!(packer.width >= max_x && packer.height >= max_y);
    // with these inputs nothing can be halved: the far corner is (90, 90)
    assert_eq!((packer.width, packer.height), (100, 100));
}

#[test]
fn scenario_exact_placements_bssf() {
    let mut queue = vec![
        image("a", 30, 30, 1, 1),
        image("b", 60, 40, 2, 2),
        image("c", 50, 50, 3, 3),
    ];
    let mut packer = Packer::new(100, 100, 0);
    packer.pack(
        &mut queue,
        false,
        false,
        FreeRectChoiceHeuristic::RectBestShortSideFit,
    );
    assert_eq!((packer.points[0].x, packer.points[0].y), (0, 0));
    assert_eq!((packer.points[1].x, packer.points[1].y), (0, 50));
    assert_eq!((packer.points[2].x, packer.points[2].y), (60, 0));
    for p in packer.points.iter() {
        assert_eq!(p.dup_id, -1);
        assert!(!p.rot);
    }
}

#[test]
fn scenario_padding_makes_a_full_size_image_unfittable() {
    // bin 64x64, pad 1: a 64x64 image needs 65x65 and cannot be placed;
    // the driver's fatal condition is an untouched queue and no points
    let mut queue = vec![image("big", 64, 64, 7, 42)];
    let mut packer = Packer::new(64, 64, 1);
    packer.pack(
        &mut queue,
        false,
        false,
        FreeRectChoiceHeuristic::RectBestShortSideFit,
    );
    assert_eq!(queue.len(), 1);
    assert_eq!(queue[0].name, "big");
    assert!(packer.points.is_empty());
    assert!(packer.images.is_empty());
    // nothing was placed, so nothing was shrunk
    assert_eq!((packer.width, packer.height), (64, 64));
}

#[test]
fn scenario_duplicate_content_is_aliased() {
    // two images with identical pixel content and fingerprint: with
    // deduplication on, the second aliases the first's placement
    let mut queue = vec![image("one", 20, 20, 9, 77), image("two", 20, 20, 9, 77)];
    let mut packer = Packer::new(50, 50, 0);
    packer.pack(
        &mut queue,
        true,
        false,
        FreeRectChoiceHeuristic::RectBestShortSideFit,
    );
    assert!(queue.is_empty());
    assert_eq!(packer.points.len(), 2);
    assert_eq!(packer.points[0].dup_id, -1);
    assert_eq!(packer.points[1].dup_id, 0);
    assert_eq!(packer.points[0].x, packer.points[1].x);
    assert_eq!(packer.points[0].y, packer.points[1].y);
    assert_eq!(packer.points[0].rot, packer.points[1].rot);
    // only one region of the bin is consumed, so the bin shrinks to 25x25
    assert_eq!((packer.width, packer.height), (25, 25));
}

#[test]
fn fingerprint_collision_without_equal_content_is_not_a_duplicate() {
    // same fingerprint, different pixels: the lookup hit is only a
    // candidate and full content equality rejects it
    let mut queue = vec![image("one", 20, 20, 1, 77), image("two", 20, 20, 2, 77)];
    let mut packer = Packer::new(100, 100, 0);
    packer.pack(
        &mut queue,
        true,
        false,
        FreeRectChoiceHeuristic::RectBestShortSideFit,
    );
    assert_eq!(packer.points.len(), 2);
    assert_eq!(packer.points[0].dup_id, -1);
    assert_eq!(packer.points[1].dup_id, -1);
    assert!(
        packer.points[0].x != packer.points[1].x || packer.points[0].y != packer.points[1].y
    );
}

#[test]
fn identical_images_without_dedup_are_both_placed() {
    let mut queue = vec![image("one", 20, 20, 9, 77), image("two", 20, 20, 9, 77)];
    let mut packer = Packer::new(100, 100, 0);
    packer.pack(
        &mut queue,
        false,
        false,
        FreeRectChoiceHeuristic::RectBestShortSideFit,
    );
    assert_eq!(packer.points.len(), 2);
    assert_eq!(packer.points[0].dup_id, -1);
    assert_eq!(packer.points[1].dup_id, -1);
    assert!(
        packer.points[0].x != packer.points[1].x || packer.points[0].y != packer.points[1].y
    );
}

#[test]
fn repeated_runs_produce_identical_placements() {
    // determinism: same inputs, same heuristic, same flags give
    // bit-identical placement sequences
    let build = || {
        vec![
            image("a", 12, 34, 1, 10),
            image("b", 30, 30, 2, 11),
            image("c", 44, 20, 3, 12),
            image("d", 25, 25, 4, 13),
            image("e", 44, 20, 3, 12),
        ]
    };
    let run = |heuristic: FreeRectChoiceHeuristic| {
        let mut queue = build();
        let mut packer = Packer::new(128, 128, 1);
        packer.pack(&mut queue, true, true, heuristic);
        packer
            .points
            .iter()
            .map(|p| (p.x, p.y, p.dup_id, p.rot))
            .collect::<Vec<_>>()
    };
    let heuristics = [
        FreeRectChoiceHeuristic::RectBestShortSideFit,
        FreeRectChoiceHeuristic::RectBestLongSideFit,
        FreeRectChoiceHeuristic::RectBestAreaFit,
        FreeRectChoiceHeuristic::RectBottomLeftRule,
        FreeRectChoiceHeuristic::RectContactPointRule,
    ];
    for h in heuristics.iter() {
        assert_eq!(run(*h), run(*h));
    }
}

#[test]
fn rotated_placement_sets_the_rotation_flag() {
    let mut queue = vec![image("tall", 40, 80, 5, 5)];
    let mut packer = Packer::new(100, 50, 0);
    packer.pack(
        &mut queue,
        false,
        true,
        FreeRectChoiceHeuristic::RectBestShortSideFit,
    );
    assert_eq!(packer.points.len(), 1);
    assert!(packer.points[0].rot);
    // the rotated item occupies 80x40 from the origin
    assert_eq!((packer.points[0].x, packer.points[0].y), (0, 0));
    assert_eq!((packer.width, packer.height), (100, 50));
}

#[test]
fn leftover_images_stay_queued_for_the_next_bin() {
    // three 40x40 images in a 64x64 bin: only one fits per bin
    let mut queue = vec![
        image("a", 40, 40, 1, 1),
        image("b", 40, 40, 2, 2),
        image("c", 40, 40, 3, 3),
    ];
    let mut packer = Packer::new(64, 64, 0);
    packer.pack(
        &mut queue,
        false,
        false,
        FreeRectChoiceHeuristic::RectBestShortSideFit,
    );
    assert_eq!(packer.points.len(), 1);
    assert_eq!(queue.len(), 2);
    // the next bin picks up where the first left off
    let mut packer2 = Packer::new(64, 64, 0);
    packer2.pack(
        &mut queue,
        false,
        false,
        FreeRectChoiceHeuristic::RectBestShortSideFit,
    );
    assert_eq!(packer2.points.len(), 1);
    assert_eq!(queue.len(), 1);
}

#[test]
fn atlas_description_carries_placements() {
    let texture = impact::serial::Texture {
        name: "sheet0".to_string(),
        images: vec![impact::serial::Image {
            name: "a".to_string(),
            x: 3,
            y: 4,
            width: 10,
            height: 20,
            frame_x: 0,
            frame_y: -1,
            frame_width: 12,
            frame_height: 22,
            rotated: true,
        }],
    };
    let atlas = impact::serial::Atlas { textures: vec![texture] };
    assert_eq!(atlas.textures.len(), 1);
    assert_eq!(atlas.textures[0].name, "sheet0");
    assert_eq!(atlas.textures[0].images[0].x, 3);
    assert_eq!(atlas.textures[0].images[0].frame_height, 22);
    assert!(atlas.textures[0].images[0].rotated);
}

#[test]
fn empty_queue_packs_nothing_and_keeps_dimensions() {
    let mut queue: Vec<ImageWrapper> = Vec::new();
    let mut packer = Packer::new(256, 256, 1);
    packer.pack(
        &mut queue,
        true,
        true,
        FreeRectChoiceHeuristic::RectBestShortSideFit,
    );
    assert!(packer.points.is_empty());
    assert!(packer.images.is_empty());
    assert_eq!((packer.width, packer.height), (256, 256));
}

#[test]
fn bin_shrinks_to_the_tightest_halving_step() {
    // a single 10x10 image in a 128x128 bin: 128 -> 64 -> 32 -> 16, and
    // 16 / 2 = 8 no longer covers the far corner at 10
    let mut queue = vec![image("small", 10, 10, 1, 1)];
    let mut packer = Packer::new(128, 128, 0);
    packer.pack(
        &mut queue,
        false,
        false,
        FreeRectChoiceHeuristic::RectBestShortSideFit,
    );
    assert_eq!((packer.width, packer.height), (16, 16));
}

#[test]
fn padding_spreads_placements_apart() {
    let mut queue = vec![image("a", 10, 10, 1, 1), image("b", 10, 10, 2, 2)];
    let mut packer = Packer::new(100, 100, 2);
    packer.pack(
        &mut queue,
        false,
        false,
        FreeRectChoiceHeuristic::RectBestShortSideFit,
    );
    assert_eq!(packer.points.len(), 2);
    assert_eq!((packer.points[0].x, packer.points[0].y), (0, 0));
    // the second placement starts beyond the first's 10 + 2 padded extent
    assert_eq!((packer.points[1].x, packer.points[1].y), (0, 12));
}

#[test]
fn collision_shadows_an_earlier_identical_image() {
    // the duplicate lookup holds one slot per fingerprint: after a
    // collision with different content overwrites the slot, a later image
    // identical to the first is no longer aliased
    let mut queue = vec![
        image("c", 20, 20, 1, 7),
        image("b", 20, 20, 2, 7),
        image("a", 20, 20, 1, 7),
    ];
    let mut packer = Packer::new(100, 100, 0);
    packer.pack(
        &mut queue,
        true,
        false,
        FreeRectChoiceHeuristic::RectBestShortSideFit,
    );
    // consumed a, b, c: b collides with a (same fingerprint, different
    // pixels) and takes over the slot; c is identical to a but only
    // compared against b, so all three are placed
    assert_eq!(packer.points.len(), 3);
    for p in packer.points.iter() {
        assert_eq!(p.dup_id, -1);
    }
}
