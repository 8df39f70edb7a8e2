use crate::area::{box_cells, lemma_seq_cells_push, rect_cells, seq_cells};
use crate::bin_packs::max_rects::{is_candidate, no_fit, FreeRectChoiceHeuristic, MaxRectsBinPack};
use crate::image_wrapper::{images_identical, ImageWrapper};
use crate::rect::{rect_in_bin, rects_disjoint, Rect};
use vstd::prelude::*;

verus! {

/// Where one consumed image ended up: its placement position, whether it
/// was rotated, and, for a duplicate, the index of the placement it
/// aliases (`-1` otherwise).
#[derive(Debug, Clone, Copy)]
pub struct Point {
    pub x: i32,
    pub y: i32,
    pub dup_id: i32,
    pub rot: bool,
}

/// Packs one bin: consumes images from the end of a shared queue, detects
/// content-identical duplicates, drives a `MaxRectsBinPack`, and shrinks
/// its reported bin size to the tightest power-of-two step that still
/// covers everything placed.
pub struct Packer {
    pub width: i32,
    pub height: i32,
    pub pad: i32,
    pub images: Vec<ImageWrapper>,
    pub points: Vec<Point>,
}

/// The engine-level rectangle of the placement `p` of image `img`: the
/// image's (possibly swapped) dimensions plus padding.
pub open spec fn placement_rect(p: Point, img: ImageWrapper, pad: i32) -> Rect {
    if p.rot {
        Rect {
            x: p.x,
            y: p.y,
            width: (img.height + pad) as i32,
            height: (img.width + pad) as i32,
        }
    } else {
        Rect {
            x: p.x,
            y: p.y,
            width: (img.width + pad) as i32,
            height: (img.height + pad) as i32,
        }
    }
}

/// The engine rectangles of the non-duplicate placements, in placement
/// order.
pub open spec fn nondup_rects(points: Seq<Point>, images: Seq<ImageWrapper>, pad: i32) -> Seq<Rect>
    decreases points.len(),
{
    if points.len() == 0 {
        Seq::<Rect>::empty()
    } else {
        let init = nondup_rects(points.drop_last(), images.drop_last(), pad);
        if points.last().dup_id == -1 {
            init.push(placement_rect(points.last(), images.last(), pad))
        } else {
            init
        }
    }
}

/// How many of the first `i` points are non-duplicate placements.
pub open spec fn count_nondup(points: Seq<Point>, i: int) -> int
    decreases i,
{
    if i <= 0 {
        0
    } else {
        count_nondup(points, i - 1) + if points[i - 1].dup_id == -1 {
            1int
        } else {
            0int
        }
    }
}

/// The far horizontal edge of the placement `p`.
pub open spec fn far_x(p: Point, img: ImageWrapper, pad: i32) -> int {
    p.x + placement_rect(p, img, pad).width
}

/// The far vertical edge of the placement `p`.
pub open spec fn far_y(p: Point, img: ImageWrapper, pad: i32) -> int {
    p.y + placement_rect(p, img, pad).height
}

/// The rightmost far edge over all non-duplicate placements; 0 when there
/// is none.
pub open spec fn max_far_x(points: Seq<Point>, images: Seq<ImageWrapper>, pad: i32) -> int
    decreases points.len(),
{
    if points.len() == 0 {
        0
    } else {
        let rest = max_far_x(points.drop_last(), images.drop_last(), pad);
        if points.last().dup_id == -1 && far_x(points.last(), images.last(), pad) > rest {
            far_x(points.last(), images.last(), pad)
        } else {
            rest
        }
    }
}

/// The bottommost far edge over all non-duplicate placements; 0 when
/// there is none.
pub open spec fn max_far_y(points: Seq<Point>, images: Seq<ImageWrapper>, pad: i32) -> int
    decreases points.len(),
{
    if points.len() == 0 {
        0
    } else {
        let rest = max_far_y(points.drop_last(), images.drop_last(), pad);
        if points.last().dup_id == -1 && far_y(points.last(), images.last(), pad) > rest {
            far_y(points.last(), images.last(), pad)
        } else {
            rest
        }
    }
}

/// Repeated halving of `w` while the half still covers `bound`.
pub open spec fn shrink_dim(w: int, bound: int) -> int
    decreases w,
{
    if 1 <= bound && bound <= w / 2 {
        shrink_dim(w / 2, bound)
    } else {
        w
    }
}

/// `img` (with padding) fits a fresh `w` by `h` bin in some allowed
/// orientation. An image failing this cannot be packed at all: the fatal
/// condition a multi-bin driver must surface.
pub open spec fn fits_empty_bin(img: ImageWrapper, pad: i32, w: i32, h: i32, rotate: bool) -> bool {
    ||| (img.width + pad <= w && img.height + pad <= h)
    ||| (rotate && img.height + pad <= w && img.width + pad <= h)
}

/// Every `dup_id` is `-1` or the index of an earlier point.
pub open spec fn valid_dup_ids(points: Seq<Point>) -> bool {
    forall|i: int| 0 <= i < points.len() ==> -1 <= (#[trigger] points[i]).dup_id < i
}

/// Every duplicate point aliases an earlier non-duplicate placement with
/// the same position and rotation, of an image with identical dimensions,
/// pixel content and fingerprint; duplicates arise only with
/// deduplication enabled.
pub open spec fn dup_points_consistent(
    points: Seq<Point>,
    images: Seq<ImageWrapper>,
    unique: bool,
) -> bool {
    forall|i: int|
        0 <= i < points.len() && (#[trigger] points[i]).dup_id >= 0 ==> (unique
            && 0 <= points[i].dup_id < i && i < images.len()
            && points[points[i].dup_id as int].dup_id == -1 && points[i].x
            == points[points[i].dup_id as int].x && points[i].y
            == points[points[i].dup_id as int].y && points[i].rot
            == points[points[i].dup_id as int].rot && images_identical(
            images[i],
            images[points[i].dup_id as int],
        ) && images[i].hash_value == images[points[i].dup_id as int].hash_value)
}

/// A rotated point can only arise when rotation was enabled, and never
/// for a square image (rotating a square changes nothing, so the flag
/// stays clear).
pub open spec fn rot_only_if(points: Seq<Point>, images: Seq<ImageWrapper>, rotate: bool) -> bool {
    forall|i: int|
        0 <= i < points.len() ==> ((#[trigger] points[i]).rot ==> rotate && i < images.len()
            && images[i].width != images[i].height)
}

/// Deduplication cannot silently be skipped: when the latest earlier
/// non-duplicate placement with the same fingerprint as image `i` has
/// identical content, point `i` is recorded as exactly that placement's
/// alias. (An earlier identical image shadowed by a later fingerprint
/// collision is not aliased, mirroring a single-slot fingerprint lookup.)
pub open spec fn dedup_forced(points: Seq<Point>, images: Seq<ImageWrapper>) -> bool {
    forall|i: int, j: int|
        #![trigger points[i], points[j]]
        (0 <= j < i < points.len() && i < images.len() && points[j].dup_id == -1
            && images[j].hash_value == images[i].hash_value && images_identical(
            images[j],
            images[i],
        ) && (forall|k: int|
            j < k < i && (#[trigger] points[k]).dup_id == -1 ==> images[k].hash_value
                != images[i].hash_value)) ==> points[i].dup_id == j
}

/// The geometric guarantees of a packed bin: every non-duplicate
/// placement rectangle (image dimensions plus padding) lies inside the
/// `w` by `h` bin, and any two of them are disjoint.
pub open spec fn placements_ok(
    points: Seq<Point>,
    images: Seq<ImageWrapper>,
    pad: i32,
    w: int,
    h: int,
) -> bool {
    &&& forall|i: int|
        0 <= i < points.len() && (#[trigger] points[i]).dup_id == -1 ==> rect_in_bin(
            placement_rect(points[i], images[i], pad),
            w,
            h,
        )
    &&& forall|i: int, j: int|
        #![trigger points[i], points[j]]
        0 <= i < j < points.len() && points[i].dup_id == -1 && points[j].dup_id == -1
            ==> rects_disjoint(
            placement_rect(points[i], images[i], pad),
            placement_rect(points[j], images[j], pad),
        )
}

/// Every queued image has positive dimensions and leaves room for the
/// padded area computations.
pub open spec fn packable_images(q: Seq<ImageWrapper>, pad: i32) -> bool {
    forall|i: int|
        0 <= i < q.len() ==> 0 < (#[trigger] q[i]).width && 0 < q[i].height && q[i].width + pad
            <= i32::MAX && q[i].height + pad <= i32::MAX && (q[i].width + pad) * (q[i].height
            + pad) <= i32::MAX
}

proof fn lemma_count_nondup_prefix(points: Seq<Point>, q: Seq<Point>, i: int)
    requires
        0 <= i <= points.len(),
        0 <= i <= q.len(),
        points.take(i) == q.take(i),
    ensures
        count_nondup(points, i) == count_nondup(q, i),
    decreases i,
{
    if i > 0 {
        assert(points[i - 1] == points.take(i)[i - 1]);
        assert(q[i - 1] == q.take(i)[i - 1]);
        assert(points.take(i - 1) =~= points.take(i).take(i - 1));
        assert(q.take(i - 1) =~= q.take(i).take(i - 1));
        lemma_count_nondup_prefix(points, q, i - 1);
    }
}

proof fn lemma_count_nondup_le(points: Seq<Point>, i: int, j: int)
    requires
        0 <= i <= j,
    ensures
        count_nondup(points, i) <= count_nondup(points, j),
    decreases j - i,
{
    if i < j {
        lemma_count_nondup_le(points, i, j - 1);
    }
}

proof fn lemma_nondup_rects_len(points: Seq<Point>, images: Seq<ImageWrapper>, pad: i32)
    requires
        images.len() == points.len(),
    ensures
        nondup_rects(points, images, pad).len() == count_nondup(points, points.len() as int),
    decreases points.len(),
{
    if points.len() > 0 {
        lemma_nondup_rects_len(points.drop_last(), images.drop_last(), pad);
        assert(points.take(points.len() - 1) =~= points.drop_last().take(points.len() - 1));
        lemma_count_nondup_prefix(points, points.drop_last(), points.len() - 1);
    }
}

/// Each non-duplicate point's placement rectangle sits in `nondup_rects`
/// at the position given by `count_nondup`.
proof fn lemma_nondup_rects_at(points: Seq<Point>, images: Seq<ImageWrapper>, pad: i32, i: int)
    requires
        images.len() == points.len(),
        0 <= i < points.len(),
        points[i].dup_id == -1,
    ensures
        0 <= count_nondup(points, i) < nondup_rects(points, images, pad).len(),
        nondup_rects(points, images, pad)[count_nondup(points, i)] == placement_rect(
            points[i],
            images[i],
            pad,
        ),
    decreases points.len(),
{
    lemma_nondup_rects_len(points, images, pad);
    lemma_count_nondup_le(points, i + 1, points.len() as int);
    if i == points.len() - 1 {
        lemma_nondup_rects_len(points.drop_last(), images.drop_last(), pad);
        assert(points.take(points.len() - 1) =~= points.drop_last().take(points.len() - 1));
        lemma_count_nondup_prefix(points, points.drop_last(), points.len() - 1);
    } else {
        lemma_nondup_rects_at(points.drop_last(), images.drop_last(), pad, i);
        assert(points.take(i) =~= points.drop_last().take(i));
        lemma_count_nondup_prefix(points, points.drop_last(), i);
    }
}

/// Distinct non-duplicate points occupy distinct positions in
/// `nondup_rects`.
proof fn lemma_count_nondup_strict(points: Seq<Point>, i: int, j: int)
    requires
        0 <= i < j,
        points[i].dup_id == -1,
    ensures
        count_nondup(points, i) < count_nondup(points, j),
{
    lemma_count_nondup_le(points, i + 1, j);
}

proof fn lemma_dedup_forced_push(pts: Seq<Point>, imgs: Seq<ImageWrapper>, p: Point, img: ImageWrapper)
    requires
        dedup_forced(pts, imgs),
        imgs.len() == pts.len(),
        forall|j: int|
            (0 <= j < pts.len() && (#[trigger] pts[j]).dup_id == -1 && imgs[j].hash_value
                == img.hash_value && images_identical(imgs[j], img) && (forall|k: int|
                j < k < pts.len() && (#[trigger] pts[k]).dup_id == -1 ==> imgs[k].hash_value
                    != img.hash_value)) ==> p.dup_id == j,
    ensures
        dedup_forced(pts.push(p), imgs.push(img)),
{
    let np = pts.push(p);
    let ni = imgs.push(img);
    assert forall|i: int, j: int|
        #![trigger np[i], np[j]]
        (0 <= j < i < np.len() && i < ni.len() && np[j].dup_id == -1 && ni[j].hash_value
            == ni[i].hash_value && images_identical(ni[j], ni[i]) && (forall|k: int|
            j < k < i && (#[trigger] np[k]).dup_id == -1 ==> ni[k].hash_value
                != ni[i].hash_value)) implies np[i].dup_id == j by {
        if i < pts.len() {
            assert(np[i] == pts[i] && np[j] == pts[j]);
            assert(ni[i] == imgs[i] && ni[j] == imgs[j]);
            assert forall|k: int|
                j < k < i && (#[trigger] pts[k]).dup_id == -1 implies imgs[k].hash_value
                    != imgs[i].hash_value by {
                assert(np[k] == pts[k] && ni[k] == imgs[k]);
            }
            assert(pts[i].dup_id == j);
        } else {
            assert(np[i] == p && ni[i] == img);
            assert(np[j] == pts[j] && ni[j] == imgs[j]);
            assert forall|k: int|
                j < k < pts.len() && (#[trigger] pts[k]).dup_id == -1 implies imgs[k].hash_value
                    != img.hash_value by {
                assert(np[k] == pts[k] && ni[k] == imgs[k]);
            }
            assert(p.dup_id == j);
        }
    }
}

impl Packer {
    pub fn new(width: i32, height: i32, pad: i32) -> (r: Packer)
        ensures
            r.width == width,
            r.height == height,
            r.pad == pad,
            r.images@ == Seq::<ImageWrapper>::empty(),
            r.points@ == Seq::<Point>::empty(),
    {
        let r = Packer { width, height, pad, images: Vec::new(), points: Vec::new() };
        proof {
            assert(r.images@ =~= Seq::<ImageWrapper>::empty());
            assert(r.points@ =~= Seq::<Point>::empty());
        }
        r
    }

    /// Packs one bin. Images are consumed from the end of the
    /// externally-sorted queue (largest-first). With `unique` set, an
    /// image whose fingerprint and pixel content match an earlier
    /// placement of this bin is recorded as an alias of it and consumes
    /// no bin area. Every other image is placed through the engine under
    /// `method`; the first image that no longer fits goes back onto the
    /// queue and closes the bin. Afterwards the bin's reported dimensions
    /// are repeatedly halved while the halves still cover every
    /// placement. Returns the final engine state as ghost data: its
    /// placement history is exactly the non-duplicate points, its free
    /// area is the bin minus those placements, and when an image was
    /// pushed back it did not fit that free list.
    #[verifier::rlimit(60)]
    pub fn pack(
        &mut self,
        images: &mut Vec<ImageWrapper>,
        unique: bool,
        rotate: bool,
        method: FreeRectChoiceHeuristic,
    ) -> (g: Ghost<MaxRectsBinPack>)
        requires
            0 < old(self).width,
            0 < old(self).height,
            old(self).width * old(self).height <= i32::MAX,
            0 <= old(self).pad <= 16,
            old(self).images@.len() == 0,
            old(self).points@.len() == 0,
            old(images)@.len() < i32::MAX,
            packable_images(old(images)@, old(self).pad),
        ensures
            final(self).pad == old(self).pad,
            final(images)@ == old(images)@.take(final(images)@.len() as int),
            final(self).images@ == old(images)@.subrange(
                final(images)@.len() as int,
                old(images)@.len() as int,
            ).reverse(),
            final(self).points@.len() == final(self).images@.len(),
            valid_dup_ids(final(self).points@),
            dup_points_consistent(final(self).points@, final(self).images@, unique),
            rot_only_if(final(self).points@, final(self).images@, rotate),
            unique ==> dedup_forced(final(self).points@, final(self).images@),
            placements_ok(
                final(self).points@,
                final(self).images@,
                old(self).pad,
                old(self).width as int,
                old(self).height as int,
            ),
            final(self).width as int == (if max_far_x(
                final(self).points@,
                final(self).images@,
                old(self).pad,
            ) > 0 {
                shrink_dim(
                    old(self).width as int,
                    max_far_x(final(self).points@, final(self).images@, old(self).pad),
                )
            } else {
                old(self).width as int
            }),
            final(self).height as int == (if max_far_y(
                final(self).points@,
                final(self).images@,
                old(self).pad,
            ) > 0 {
                shrink_dim(
                    old(self).height as int,
                    max_far_y(final(self).points@, final(self).images@, old(self).pad),
                )
            } else {
                old(self).height as int
            }),
            old(images)@.len() > 0 ==> (final(images)@.len() == old(images)@.len()
                <==> !fits_empty_bin(
                old(images)@[old(images)@.len() - 1],
                old(self).pad,
                old(self).width,
                old(self).height,
                rotate,
            )),
            g@.wf(),
            g@.width_spec() == old(self).width as int,
            g@.height_spec() == old(self).height as int,
            g@.used_list() == nondup_rects(final(self).points@, final(self).images@, old(self).pad),
            seq_cells(g@.free_list()) == box_cells(
                0,
                0,
                old(self).width as int,
                old(self).height as int,
            ).difference(seq_cells(g@.used_list())),
            final(images)@.len() > 0 ==> no_fit(
                g@.free_list(),
                rotate,
                (final(images)@[final(images)@.len() - 1].width + old(self).pad) as i32,
                (final(images)@[final(images)@.len() - 1].height + old(self).pad) as i32,
            ),
    {
        let ghost q0 = images@;
        let ghost n0 = images@.len() as int;

        let mut packer = MaxRectsBinPack::new(self.width, self.height);

        let mut ww: i32 = 0;
        let mut hh: i32 = 0;
        let mut done = false;

        proof {
            assert(images@ =~= q0.take(n0));
            assert(self.images@ =~= q0.subrange(n0, n0).reverse());
            let full = Rect { x: 0, y: 0, width: self.width, height: self.height };
            assert(seq![full] =~= Seq::<Rect>::empty().push(full));
            lemma_seq_cells_push(Seq::<Rect>::empty(), full);
            assert(seq_cells(packer.free_list()) =~= box_cells(
                0,
                0,
                self.width as int,
                self.height as int,
            ).difference(seq_cells(packer.used_list())));
        }

        while !done && images.len() > 0
            invariant
                0 < self.width,
                0 < self.height,
                self.width * self.height <= i32::MAX,
                self.width == old(self).width,
                self.height == old(self).height,
                self.pad == old(self).pad,
                0 <= self.pad <= 16,
                q0 == old(images)@,
                n0 == q0.len(),
                n0 < i32::MAX,
                packable_images(q0, self.pad),
                packer.wf(),
                packer.width_spec() == self.width as int,
                packer.height_spec() == self.height as int,
                images@.len() <= n0,
                images@ == q0.take(images@.len() as int),
                self.images@ == q0.subrange(images@.len() as int, n0).reverse(),
                self.points@.len() == self.images@.len(),
                packer.used_list() == nondup_rects(self.points@, self.images@, self.pad),
                valid_dup_ids(self.points@),
                dup_points_consistent(self.points@, self.images@, unique),
                rot_only_if(self.points@, self.images@, rotate),
                unique ==> dedup_forced(self.points@, self.images@),
                seq_cells(packer.free_list()) == box_cells(
                    0,
                    0,
                    self.width as int,
                    self.height as int,
                ).difference(seq_cells(packer.used_list())),
                forall|i: int|
                    0 <= i < self.points@.len() && (#[trigger] self.points@[i]).dup_id == -1
                        ==> rect_in_bin(
                        placement_rect(self.points@[i], self.images@[i], self.pad),
                        self.width as int,
                        self.height as int,
                    ),
                ww as int == max_far_x(self.points@, self.images@, self.pad),
                hh as int == max_far_y(self.points@, self.images@, self.pad),
                0 <= ww <= self.width,
                0 <= hh <= self.height,
                images@.len() == n0 ==> self.points@.len() == 0,
                self.points@.len() == 0 ==> packer.free_list() == seq![
                    Rect { x: 0, y: 0, width: self.width, height: self.height },
                ],
                images@.len() < n0 ==> n0 > 0 && fits_empty_bin(
                    q0[n0 - 1],
                    self.pad,
                    self.width,
                    self.height,
                    rotate,
                ),
                done && images@.len() == n0 ==> n0 > 0 && !fits_empty_bin(
                    q0[n0 - 1],
                    self.pad,
                    self.width,
                    self.height,
                    rotate,
                ),
                done ==> images@.len() > 0 && no_fit(
                    packer.free_list(),
                    rotate,
                    (images@[images@.len() - 1].width + self.pad) as i32,
                    (images@[images@.len() - 1].height + self.pad) as i32,
                ),
            decreases images@.len(), (if done {
                0int
            } else {
                1int
            }),
        {
            let ghost j = images@.len() as int;
            let ghost q_pre = images@;
            let image = images.pop().unwrap();
            proof {
                assert(1 <= j <= n0);
                assert(q_pre == q0.take(j));
                assert(q0.take(j)[j - 1] == q0[j - 1]);
                assert(image == q0[j - 1]);
                assert(images@ == q_pre.subrange(0, j - 1));
                assert(images@ =~= q0.take(j - 1));
            }

            // Look for an earlier non-duplicate placement with the same
            // content fingerprint.
            let mut dup_idx: usize = 0;
            let mut dup_found = false;
            if unique {
                let plen = self.points.len();
                let mut k: usize = 0;
                while k < plen
                    invariant
                        plen == self.points@.len(),
                        self.points@.len() == self.images@.len(),
                        k <= plen,
                        dup_found ==> dup_idx < plen && self.points@[dup_idx as int].dup_id == -1
                            && self.images@[dup_idx as int].hash_value == image.hash_value,
                        dup_found ==> forall|k2: int|
                            dup_idx < k2 < k && (#[trigger] self.points@[k2]).dup_id == -1
                                ==> self.images@[k2].hash_value != image.hash_value,
                        !dup_found ==> forall|k2: int|
                            0 <= k2 < k && (#[trigger] self.points@[k2]).dup_id == -1
                                ==> self.images@[k2].hash_value != image.hash_value,
                    decreases plen - k,
                {
                    if self.points[k].dup_id == -1 && self.images[k].hash_value == image.hash_value {
                        dup_idx = k;
                        dup_found = true;
                    }
                    k += 1;
                }
            }

            let mut is_dup = false;
            if dup_found {
                // A fingerprint hit is only a candidate: confirm full
                // content equality.
                if image == self.images[dup_idx] {
                    is_dup = true;
                }
            }

            if is_dup {
                let ghost pts_pre = self.points@;
                let ghost imgs_pre = self.images@;
                let mut p = self.points[dup_idx];
                p.dup_id = dup_idx as i32;
                self.points.push(p);
                self.images.push(image);
                proof {
                    assert(self.points@.drop_last() =~= pts_pre);
                    assert(self.images@.drop_last() =~= imgs_pre);
                    assert(nondup_rects(self.points@, self.images@, self.pad) == nondup_rects(
                        pts_pre,
                        imgs_pre,
                        self.pad,
                    ));
                    assert(max_far_x(self.points@, self.images@, self.pad) == max_far_x(
                        pts_pre,
                        imgs_pre,
                        self.pad,
                    ));
                    assert(max_far_y(self.points@, self.images@, self.pad) == max_far_y(
                        pts_pre,
                        imgs_pre,
                        self.pad,
                    ));
                    assert(self.images@ =~= q0.subrange(j - 1, n0).reverse());
                    // the alias points at the latest fingerprint match, so
                    // the forced-deduplication rule extends to it
                    assert forall|j2: int|
                        (0 <= j2 < pts_pre.len() && (#[trigger] pts_pre[j2]).dup_id == -1
                            && imgs_pre[j2].hash_value == image.hash_value && images_identical(
                            imgs_pre[j2],
                            image,
                        ) && (forall|k2: int|
                            j2 < k2 < pts_pre.len() && (#[trigger] pts_pre[k2]).dup_id == -1
                                ==> imgs_pre[k2].hash_value != image.hash_value)) implies p.dup_id
                        == j2 by {
                        if j2 < dup_idx {
                            assert(pts_pre[dup_idx as int].dup_id == -1);
                            assert(imgs_pre[dup_idx as int].hash_value == image.hash_value);
                            assert(false);
                        } else if j2 > dup_idx {
                            assert(imgs_pre[j2].hash_value != image.hash_value);
                            assert(false);
                        }
                    }
                    lemma_dedup_forced_push(pts_pre, imgs_pre, p, image);
                    // a rotated alias copies a rotated placement of an
                    // identically-sized image
                    assert forall|i2: int|
                        0 <= i2 < self.points@.len() && (#[trigger] self.points@[i2]).rot
                            implies rotate && i2 < self.images@.len() && self.images@[i2].width
                            != self.images@[i2].height by {
                        if i2 < pts_pre.len() {
                            assert(self.points@[i2] == pts_pre[i2]);
                            assert(self.images@[i2] == imgs_pre[i2]);
                        } else {
                            assert(self.points@[i2] == p);
                            assert(p.rot == pts_pre[dup_idx as int].rot);
                            assert(imgs_pre[dup_idx as int].width == image.width
                                && imgs_pre[dup_idx as int].height == image.height);
                        }
                    }
                }
            } else {
                let ghost used_pre = packer.used_list();
                let ghost free_pre = packer.free_list();
                let rect = packer.insert(
                    image.width + self.pad,
                    image.height + self.pad,
                    rotate,
                    method,
                );

                if rect.width == 0 || rect.height == 0 {
                    images.push(image);
                    done = true;
                    proof {
                        assert(images@ =~= q0.take(j));
                        assert(images@[images@.len() - 1] == image);
                        assert(no_fit(
                            packer.free_list(),
                            rotate,
                            (image.width + self.pad) as i32,
                            (image.height + self.pad) as i32,
                        ));
                        if images@.len() == n0 {
                            assert(self.points@.len() == 0);
                            assert(no_fit(
                                free_pre,
                                rotate,
                                (image.width + self.pad) as i32,
                                (image.height + self.pad) as i32,
                            ));
                            assert(free_pre[0] == (Rect {
                                x: 0,
                                y: 0,
                                width: self.width,
                                height: self.height,
                            }));
                            assert(!fits_empty_bin(
                                q0[n0 - 1],
                                self.pad,
                                self.width,
                                self.height,
                                rotate,
                            ));
                        }
                    }
                } else {
                    let ghost pts_pre = self.points@;
                    let ghost imgs_pre = self.images@;
                    let p = Point {
                        x: rect.x,
                        y: rect.y,
                        dup_id: -1,
                        rot: rotate && image.width != (rect.width - self.pad),
                    };
                    proof {
                        let ci = choose|i: int|
                            0 <= i < free_pre.len() && is_candidate(
                                #[trigger] free_pre[i],
                                rotate,
                                (image.width + self.pad) as i32,
                                (image.height + self.pad) as i32,
                                rect,
                            );
                        assert(placement_rect(p, image, self.pad) == rect);
                        assert(p.rot ==> rotate && image.width != image.height);
                    }
                    if rect.x + rect.width > ww {
                        ww = rect.x + rect.width;
                    }
                    if rect.y + rect.height > hh {
                        hh = rect.y + rect.height;
                    }
                    self.points.push(p);
                    self.images.push(image);
                    proof {
                        assert(self.points@.drop_last() =~= pts_pre);
                        assert(self.images@.drop_last() =~= imgs_pre);
                        assert(nondup_rects(self.points@, self.images@, self.pad)
                            == nondup_rects(pts_pre, imgs_pre, self.pad).push(rect));
                        assert(far_x(p, image, self.pad) == rect.x + rect.width);
                        assert(far_y(p, image, self.pad) == rect.y + rect.height);
                        assert(self.images@ =~= q0.subrange(j - 1, n0).reverse());
                        lemma_seq_cells_push(used_pre, rect);
                        assert(seq_cells(packer.free_list()) =~= box_cells(
                            0,
                            0,
                            self.width as int,
                            self.height as int,
                        ).difference(seq_cells(packer.used_list())));
                        if unique {
                            // a successful placement never hides a forced
                            // duplicate: either no earlier fingerprint
                            // matched, or the latest match was a collision
                            // with different content
                            assert forall|j2: int|
                                (0 <= j2 < pts_pre.len() && (#[trigger] pts_pre[j2]).dup_id == -1
                                    && imgs_pre[j2].hash_value == image.hash_value
                                    && images_identical(imgs_pre[j2], image) && (forall|k2: int|
                                    j2 < k2 < pts_pre.len() && (#[trigger] pts_pre[k2]).dup_id
                                        == -1 ==> imgs_pre[k2].hash_value
                                        != image.hash_value)) implies p.dup_id == j2 by {
                                if dup_found {
                                    if j2 < dup_idx {
                                        assert(pts_pre[dup_idx as int].dup_id == -1);
                                        assert(imgs_pre[dup_idx as int].hash_value
                                            == image.hash_value);
                                        assert(false);
                                    } else if j2 > dup_idx {
                                        assert(imgs_pre[j2].hash_value != image.hash_value);
                                        assert(false);
                                    } else {
                                        assert(!images_identical(
                                            imgs_pre[dup_idx as int],
                                            image,
                                        ));
                                        assert(false);
                                    }
                                } else {
                                    assert(imgs_pre[j2].hash_value != image.hash_value);
                                    assert(false);
                                }
                            }
                            lemma_dedup_forced_push(pts_pre, imgs_pre, p, image);
                        }
                        assert forall|i2: int|
                            0 <= i2 < self.points@.len() && (#[trigger] self.points@[i2]).rot
                                implies rotate && i2 < self.images@.len()
                                && self.images@[i2].width != self.images@[i2].height by {
                            if i2 < pts_pre.len() {
                                assert(self.points@[i2] == pts_pre[i2]);
                                assert(self.images@[i2] == imgs_pre[i2]);
                            } else {
                                assert(self.points@[i2] == p);
                                assert(self.images@[i2] == image);
                            }
                        }
                        if j == n0 {
                            assert(free_pre =~= seq![
                                Rect { x: 0, y: 0, width: self.width, height: self.height },
                            ]);
                            assert(!no_fit(
                                free_pre,
                                rotate,
                                (image.width + self.pad) as i32,
                                (image.height + self.pad) as i32,
                            ));
                            assert(fits_empty_bin(
                                q0[n0 - 1],
                                self.pad,
                                self.width,
                                self.height,
                                rotate,
                            ));
                        }
                    }
                }
            }
        }

        // Derive the geometric guarantees from the engine's invariant.
        proof {
            assert forall|i: int, j2: int|
                #![trigger self.points@[i], self.points@[j2]]
                0 <= i < j2 < self.points@.len() && self.points@[i].dup_id == -1
                    && self.points@[j2].dup_id == -1 implies rects_disjoint(
                placement_rect(self.points@[i], self.images@[i], self.pad),
                placement_rect(self.points@[j2], self.images@[j2], self.pad),
            ) by {
                lemma_nondup_rects_at(self.points@, self.images@, self.pad, i);
                lemma_nondup_rects_at(self.points@, self.images@, self.pad, j2);
                lemma_count_nondup_strict(self.points@, i, j2);
                lemma_count_nondup_le(self.points@, j2, self.points@.len() as int);
            }
        }

        // Shrink each reported dimension to the tightest halving step
        // that still covers the farthest placement edge.
        let ghost pts_f = self.points@;
        let ghost imgs_f = self.images@;
        proof {
            assert(valid_dup_ids(pts_f));
            assert(dup_points_consistent(pts_f, imgs_f, unique));
            assert(rot_only_if(pts_f, imgs_f, rotate));
            assert(placements_ok(
                pts_f,
                imgs_f,
                old(self).pad,
                old(self).width as int,
                old(self).height as int,
            ));
            assert(ww as int == max_far_x(pts_f, imgs_f, old(self).pad));
            assert(hh as int == max_far_y(pts_f, imgs_f, old(self).pad));
            assert(self.images@ == q0.subrange(images@.len() as int, n0).reverse());
            assert(unique ==> dedup_forced(pts_f, imgs_f));
            assert(packer.used_list() == nondup_rects(pts_f, imgs_f, old(self).pad));
            assert(seq_cells(packer.free_list()) == box_cells(
                0,
                0,
                old(self).width as int,
                old(self).height as int,
            ).difference(seq_cells(packer.used_list())));
            assert(images@.len() > 0 ==> no_fit(
                packer.free_list(),
                rotate,
                (images@[images@.len() - 1].width + old(self).pad) as i32,
                (images@[images@.len() - 1].height + old(self).pad) as i32,
            ));
            assert(packer.width_spec() == old(self).width as int);
            assert(packer.height_spec() == old(self).height as int);
        }
        if ww > 0 {
            while self.width / 2 >= ww
                invariant
                    1 <= ww <= self.width,
                    self.height == old(self).height,
                    self.pad == old(self).pad,
                    self.points@ == pts_f,
                    self.images@ == imgs_f,
                    shrink_dim(old(self).width as int, ww as int) == shrink_dim(
                        self.width as int,
                        ww as int,
                    ),
                decreases self.width,
            {
                self.width = self.width / 2;
            }
        }
        let ghost w_shrunk = self.width;
        if hh > 0 {
            while self.height / 2 >= hh
                invariant
                    1 <= hh <= self.height,
                    self.width == w_shrunk,
                    self.pad == old(self).pad,
                    self.points@ == pts_f,
                    self.images@ == imgs_f,
                    shrink_dim(old(self).height as int, hh as int) == shrink_dim(
                        self.height as int,
                        hh as int,
                    ),
                decreases self.height,
            {
                self.height = self.height / 2;
            }
        }

        Ghost(packer)
    }
}

} // verus!
