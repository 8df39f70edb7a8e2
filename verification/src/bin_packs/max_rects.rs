use crate::area::{
    lemma_packed_area_bound, lemma_packed_count_bound, lemma_seq_cells_disjoint_from,
    lemma_seq_cells_membership,
    lemma_seq_cells_push, lemma_seq_cells_remove_contained, lemma_sum_areas_ge_len,
    lemma_sum_areas_take_le, lemma_sum_areas_take_succ, rect_area, rect_cells, seq_cells,
    sum_areas,
};
use crate::rect::{
    all_disjoint_from, all_in_bin, all_occur_in, cross_disjoint, lemma_contained_disjoint,
    no_containment, occurs_in, pairwise_disjoint, rect_contained_in, rect_in_bin, rect_sums_fit,
    rects_disjoint, rects_overlap, Rect,
};
use vstd::prelude::*;

verus! {

/// The placement rules the engine can score candidate positions with.
#[derive(Debug, Copy, Clone)]
pub enum FreeRectChoiceHeuristic {
    /// BSSF: Positions the rectangle against the short side of a free rectangle into which it fits the best.
    RectBestShortSideFit,
    /// BLSF: Positions the rectangle against the long side of a free rectangle into which it fits the best.
    RectBestLongSideFit,
    /// BAF: Positions the rectangle into the smallest free rect into which it fits.
    RectBestAreaFit,
    /// BL: Does the Tetris placement.
    RectBottomLeftRule,
    /// CP: Chooses the placement where the rectangle touches other rects as much as possible.
    RectContactPointRule,
}

/// A rectangle of size `w` by `h` fits into the free rectangle `f`.
pub open spec fn fits(f: Rect, w: i32, h: i32) -> bool {
    f.width >= w && f.height >= h
}

/// No free rectangle of `free` can take a `w` by `h` rectangle in any
/// allowed orientation.
pub open spec fn no_fit(free: Seq<Rect>, rot: bool, w: i32, h: i32) -> bool {
    forall|i: int|
        0 <= i < free.len() ==> !fits(#[trigger] free[i], w, h) && !(rot && fits(free[i], h, w))
}

/// `node` is a placement of a `w` by `h` rectangle (rotated only if `rot`)
/// into the corner of the free rectangle `f`.
pub open spec fn is_candidate(f: Rect, rot: bool, w: i32, h: i32, node: Rect) -> bool {
    &&& node.x == f.x
    &&& node.y == f.y
    &&& {
        ||| (node.width == w && node.height == h && fits(f, w, h))
        ||| (rot && node.width == h && node.height == w && fits(f, h, w))
    }
}

/// `node` is a placement of a `w` by `h` rectangle into some free rectangle
/// of `free`.
pub open spec fn is_placement(free: Seq<Rect>, rot: bool, w: i32, h: i32, node: Rect) -> bool {
    exists|i: int| 0 <= i < free.len() && is_candidate(#[trigger] free[i], rot, w, h, node)
}

/// `b` has the dimensions of `a`, swapped only when `rot` allows it.
pub open spec fn dims_match(a: Rect, b: Rect, rot: bool) -> bool {
    ||| (b.width == a.width && b.height == a.height)
    ||| (rot && b.width == a.height && b.height == a.width)
}

/// `m` pairs every committed placement of a batch insertion injectively
/// with a distinct input rectangle of matching (possibly swapped)
/// dimensions, and every input left unpaired no longer fits the free list
/// the batch ended with: batch insertion consumes each input at most once
/// and continues until nothing fits.
pub open spec fn batch_outcome(
    dst: Seq<Rect>,
    rects: Seq<Rect>,
    rot: bool,
    free_after: Seq<Rect>,
    m: Seq<int>,
) -> bool {
    &&& m.len() == dst.len()
    &&& forall|k: int|
        0 <= k < m.len() ==> 0 <= #[trigger] m[k] < rects.len() && dims_match(
            rects[m[k]],
            dst[k],
            rot,
        )
    &&& forall|k1: int, k2: int|
        #![trigger m[k1], m[k2]]
        0 <= k1 < k2 < m.len() ==> m[k1] != m[k2]
    &&& forall|i: int|
        0 <= i < rects.len() && !m.contains(i) ==> no_fit(
            free_after,
            rot,
            (#[trigger] rects[i]).width,
            rects[i].height,
        )
}

/// `dst_k` has the dimensions of some input rectangle, possibly swapped
/// when rotation is allowed.
pub open spec fn from_some_input(rects: Seq<Rect>, dst_k: Rect, rot: bool) -> bool {
    exists|i: int| 0 <= i < rects.len() && dims_match(#[trigger] rects[i], dst_k, rot)
}

/// Lexicographic order on score pairs; lower is better.
pub open spec fn lex_le(a1: int, a2: int, b1: int, b2: int) -> bool {
    a1 < b1 || (a1 == b1 && a2 <= b2)
}

/// The smaller of the two leftover side lengths when a `w` by `h` rectangle
/// is placed into `f`.
pub open spec fn leftover_short(f: Rect, w: i32, h: i32) -> int {
    let lh = f.width - w;
    let lv = f.height - h;
    if lh <= lv {
        lh
    } else {
        lv
    }
}

/// The larger of the two leftover side lengths when a `w` by `h` rectangle
/// is placed into `f`.
pub open spec fn leftover_long(f: Rect, w: i32, h: i32) -> int {
    let lh = f.width - w;
    let lv = f.height - h;
    if lh <= lv {
        lv
    } else {
        lh
    }
}

/// The score pair `(s1, s2)` is at least as good as every candidate of
/// `free` under best-short-side-fit.
pub open spec fn bssf_le_all(free: Seq<Rect>, rot: bool, w: i32, h: i32, s1: int, s2: int) -> bool {
    &&& forall|i: int|
        0 <= i < free.len() && fits(#[trigger] free[i], w, h) ==> lex_le(
            s1,
            s2,
            leftover_short(free[i], w, h),
            leftover_long(free[i], w, h),
        )
    &&& rot ==> forall|i: int|
        0 <= i < free.len() && fits(#[trigger] free[i], h, w) ==> lex_le(
            s1,
            s2,
            leftover_short(free[i], h, w),
            leftover_long(free[i], h, w),
        )
}

/// `node` is a best-short-side-fit placement into `free`: it is a candidate
/// whose (short leftover, long leftover) pair is lexicographically minimal
/// over all candidates in either allowed orientation.
pub open spec fn bssf_optimal(free: Seq<Rect>, rot: bool, w: i32, h: i32, node: Rect) -> bool {
    exists|i: int|
        0 <= i < free.len() && is_candidate(#[trigger] free[i], rot, w, h, node) && bssf_le_all(
            free,
            rot,
            w,
            h,
            leftover_short(free[i], node.width, node.height),
            leftover_long(free[i], node.width, node.height),
        )
}

/// The score pair `(s1, s2)` is at least as good as every candidate of
/// `free` under best-long-side-fit.
pub open spec fn blsf_le_all(free: Seq<Rect>, rot: bool, w: i32, h: i32, s1: int, s2: int) -> bool {
    &&& forall|i: int|
        0 <= i < free.len() && fits(#[trigger] free[i], w, h) ==> lex_le(
            s1,
            s2,
            leftover_long(free[i], w, h),
            leftover_short(free[i], w, h),
        )
    &&& rot ==> forall|i: int|
        0 <= i < free.len() && fits(#[trigger] free[i], h, w) ==> lex_le(
            s1,
            s2,
            leftover_long(free[i], h, w),
            leftover_short(free[i], h, w),
        )
}

/// `node` is a best-long-side-fit placement into `free`.
pub open spec fn blsf_optimal(free: Seq<Rect>, rot: bool, w: i32, h: i32, node: Rect) -> bool {
    exists|i: int|
        0 <= i < free.len() && is_candidate(#[trigger] free[i], rot, w, h, node) && blsf_le_all(
            free,
            rot,
            w,
            h,
            leftover_long(free[i], node.width, node.height),
            leftover_short(free[i], node.width, node.height),
        )
}

/// The score pair `(s1, s2)` is at least as good as every candidate of
/// `free` under best-area-fit: `s1` compares the leftover area of the free
/// rectangle, `s2` breaks ties by short-side fit.
pub open spec fn baf_le_all(free: Seq<Rect>, rot: bool, w: i32, h: i32, s1: int, s2: int) -> bool {
    &&& forall|i: int|
        0 <= i < free.len() && fits(#[trigger] free[i], w, h) ==> lex_le(
            s1,
            s2,
            free[i].width * free[i].height - w * h,
            leftover_short(free[i], w, h),
        )
    &&& rot ==> forall|i: int|
        0 <= i < free.len() && fits(#[trigger] free[i], h, w) ==> lex_le(
            s1,
            s2,
            free[i].width * free[i].height - w * h,
            leftover_short(free[i], h, w),
        )
}

/// `node` is a best-area-fit placement into `free`.
pub open spec fn baf_optimal(free: Seq<Rect>, rot: bool, w: i32, h: i32, node: Rect) -> bool {
    exists|i: int|
        0 <= i < free.len() && is_candidate(#[trigger] free[i], rot, w, h, node) && baf_le_all(
            free,
            rot,
            w,
            h,
            free[i].width * free[i].height - w * h,
            leftover_short(free[i], node.width, node.height),
        )
}

/// The score pair `(s1, s2)` is at least as good as every candidate of
/// `free` under the bottom-left rule: `s1` compares the top edge of the
/// placed rectangle, `s2` breaks ties by its left edge.
pub open spec fn bl_le_all(free: Seq<Rect>, rot: bool, w: i32, h: i32, s1: int, s2: int) -> bool {
    &&& forall|i: int|
        0 <= i < free.len() && fits(#[trigger] free[i], w, h) ==> lex_le(
            s1,
            s2,
            free[i].y + h,
            free[i].x as int,
        )
    &&& rot ==> forall|i: int|
        0 <= i < free.len() && fits(#[trigger] free[i], h, w) ==> lex_le(
            s1,
            s2,
            free[i].y + w,
            free[i].x as int,
        )
}

/// `node` is a bottom-left placement into `free`: it settles as low, then
/// as far left, as possible.
pub open spec fn bl_optimal(free: Seq<Rect>, rot: bool, w: i32, h: i32, node: Rect) -> bool {
    &&& is_placement(free, rot, w, h, node)
    &&& bl_le_all(free, rot, w, h, node.y + node.height, node.x as int)
}

/// The returned best-short-side-fit score pair belongs to the winning
/// candidate: `s1` and `s2` are the short and long leftovers of a free
/// rectangle `node` was placed into.
pub open spec fn bssf_scores_of(
    free: Seq<Rect>,
    rot: bool,
    w: i32,
    h: i32,
    node: Rect,
    s1: int,
    s2: int,
) -> bool {
    exists|i: int|
        0 <= i < free.len() && is_candidate(#[trigger] free[i], rot, w, h, node) && s1
            == leftover_short(free[i], node.width, node.height) && s2 == leftover_long(
            free[i],
            node.width,
            node.height,
        )
}

/// The returned best-long-side-fit score pair belongs to the winning
/// candidate.
pub open spec fn blsf_scores_of(
    free: Seq<Rect>,
    rot: bool,
    w: i32,
    h: i32,
    node: Rect,
    s1: int,
    s2: int,
) -> bool {
    exists|i: int|
        0 <= i < free.len() && is_candidate(#[trigger] free[i], rot, w, h, node) && s1
            == leftover_long(free[i], node.width, node.height) && s2 == leftover_short(
            free[i],
            node.width,
            node.height,
        )
}

/// The returned best-area-fit score pair belongs to the winning candidate:
/// `s1` is its leftover area, `s2` its short-side fit.
pub open spec fn baf_scores_of(
    free: Seq<Rect>,
    rot: bool,
    w: i32,
    h: i32,
    node: Rect,
    s1: int,
    s2: int,
) -> bool {
    exists|i: int|
        0 <= i < free.len() && is_candidate(#[trigger] free[i], rot, w, h, node) && s1 == free[i].width
            * free[i].height - w * h && s2 == leftover_short(free[i], node.width, node.height)
}

/// The contact the bin's own edges make with a `w` by `h` rectangle placed
/// at `(x, y)` in a `bw` by `bh` bin: a full side length for each bin edge
/// the rectangle touches.
pub open spec fn cp_edge_score(bw: int, bh: int, x: int, y: int, w: int, h: int) -> int {
    (if x == 0 || x + w == bw {
        h
    } else {
        0
    }) + (if y == 0 || y + h == bh {
        w
    } else {
        0
    })
}

/// The contact a single used rectangle `r` makes with a `w` by `h`
/// rectangle placed at `(x, y)`: the overlap of the facing spans for each
/// side of `r` that exactly abuts the placement.
pub open spec fn cp_rect_contrib(r: Rect, x: int, y: int, w: int, h: int) -> int {
    (if r.x == x + w || r.x + r.width == x {
        interval_overlap(r.y as int, r.y + r.height, y, y + h)
    } else {
        0
    }) + (if r.y == y + h || r.y + r.height == y {
        interval_overlap(r.x as int, r.x + r.width, x, x + w)
    } else {
        0
    })
}

/// The summed contact of all used rectangles with a `w` by `h` rectangle
/// placed at `(x, y)`.
pub open spec fn cp_used_score(used: Seq<Rect>, x: int, y: int, w: int, h: int) -> int
    decreases used.len(),
{
    if used.len() == 0 {
        0
    } else {
        cp_used_score(used.drop_last(), x, y, w, h) + cp_rect_contrib(used.last(), x, y, w, h)
    }
}

/// The full contact-point score of a `w` by `h` rectangle placed at
/// `(x, y)`: bin-edge contact plus contact with every used rectangle.
/// Higher is better.
pub open spec fn cp_score(used: Seq<Rect>, bw: int, bh: int, x: int, y: int, w: int, h: int) -> int {
    cp_edge_score(bw, bh, x, y, w, h) + cp_used_score(used, x, y, w, h)
}

/// The score `s` is at least the contact-point score of every candidate of
/// `free`.
pub open spec fn cp_ge_all(
    free: Seq<Rect>,
    used: Seq<Rect>,
    bw: int,
    bh: int,
    rot: bool,
    w: i32,
    h: i32,
    s: int,
) -> bool {
    &&& forall|i: int|
        0 <= i < free.len() && fits(#[trigger] free[i], w, h) ==> cp_score(
            used,
            bw,
            bh,
            free[i].x as int,
            free[i].y as int,
            w as int,
            h as int,
        ) <= s
    &&& rot ==> forall|i: int|
        0 <= i < free.len() && fits(#[trigger] free[i], h, w) ==> cp_score(
            used,
            bw,
            bh,
            free[i].x as int,
            free[i].y as int,
            h as int,
            w as int,
        ) <= s
}

/// `node` is a contact-point placement into `free`: a candidate whose
/// contact-point score is maximal over all candidates.
pub open spec fn cp_optimal(
    free: Seq<Rect>,
    used: Seq<Rect>,
    bw: int,
    bh: int,
    rot: bool,
    w: i32,
    h: i32,
    node: Rect,
) -> bool {
    &&& is_placement(free, rot, w, h, node)
    &&& cp_ge_all(
        free,
        used,
        bw,
        bh,
        rot,
        w,
        h,
        cp_score(used, bw, bh, node.x as int, node.y as int, node.width as int, node.height as int),
    )
}

/// The residual free rectangles that splitting the free rectangle `f`
/// around the placed rectangle `u` produces, in the order they are
/// generated: the parts of `f` above, below, left and right of `u`. Each
/// is present only when it has positive extent; together they cover
/// exactly the cells of `f` outside `u`.
pub open spec fn split_residuals(f: Rect, u: Rect) -> Seq<Rect> {
    let s0 = Seq::<Rect>::empty();
    let s1 = if u.x < f.x + f.width && u.x + u.width > f.x && u.y > f.y && u.y < f.y + f.height {
        s0.push(Rect { x: f.x, y: f.y, width: f.width, height: (u.y - f.y) as i32 })
    } else {
        s0
    };
    let s2 = if u.x < f.x + f.width && u.x + u.width > f.x && u.y + u.height < f.y + f.height {
        s1.push(
            Rect {
                x: f.x,
                y: (u.y + u.height) as i32,
                width: f.width,
                height: (f.y + f.height - (u.y + u.height)) as i32,
            },
        )
    } else {
        s1
    };
    let s3 = if u.y < f.y + f.height && u.y + u.height > f.y && u.x > f.x && u.x < f.x + f.width {
        s2.push(Rect { x: f.x, y: f.y, width: (u.x - f.x) as i32, height: f.height })
    } else {
        s2
    };
    if u.y < f.y + f.height && u.y + u.height > f.y && u.x + u.width < f.x + f.width {
        s3.push(
            Rect {
                x: (u.x + u.width) as i32,
                y: f.y,
                width: (f.x + f.width - (u.x + u.width)) as i32,
                height: f.height,
            },
        )
    } else {
        s3
    }
}

/// Splitting loses no free area and reclaims none of the placed one: the
/// residuals cover exactly the cells of `f` that lie outside `u`.
pub proof fn lemma_split_residuals_cover(f: Rect, u: Rect)
    requires
        rects_overlap(f, u),
        0 < f.width,
        0 < f.height,
        0 < u.width,
        0 < u.height,
        crate::rect::rect_sums_fit(f),
        crate::rect::rect_sums_fit(u),
    ensures
        seq_cells(split_residuals(f, u)) == rect_cells(f).difference(rect_cells(u)),
{
    let s0 = Seq::<Rect>::empty();
    let top = Rect { x: f.x, y: f.y, width: f.width, height: (u.y - f.y) as i32 };
    let bottom = Rect {
        x: f.x,
        y: (u.y + u.height) as i32,
        width: f.width,
        height: (f.y + f.height - (u.y + u.height)) as i32,
    };
    let left = Rect { x: f.x, y: f.y, width: (u.x - f.x) as i32, height: f.height };
    let right = Rect {
        x: (u.x + u.width) as i32,
        y: f.y,
        width: (f.x + f.width - (u.x + u.width)) as i32,
        height: f.height,
    };
    let has_top = u.x < f.x + f.width && u.x + u.width > f.x && u.y > f.y && u.y < f.y + f.height;
    let has_bottom = u.x < f.x + f.width && u.x + u.width > f.x && u.y + u.height < f.y + f.height;
    let has_left = u.y < f.y + f.height && u.y + u.height > f.y && u.x > f.x && u.x < f.x + f.width;
    let has_right = u.y < f.y + f.height && u.y + u.height > f.y && u.x + u.width < f.x + f.width;
    let s1 = if has_top {
        s0.push(top)
    } else {
        s0
    };
    let s2 = if has_bottom {
        s1.push(bottom)
    } else {
        s1
    };
    let s3 = if has_left {
        s2.push(left)
    } else {
        s2
    };
    let s4 = if has_right {
        s3.push(right)
    } else {
        s3
    };
    assert(split_residuals(f, u) == s4);
    if has_top {
        lemma_seq_cells_push(s0, top);
    }
    if has_bottom {
        lemma_seq_cells_push(s1, bottom);
    }
    if has_left {
        lemma_seq_cells_push(s2, left);
    }
    if has_right {
        lemma_seq_cells_push(s3, right);
    }
    assert(seq_cells(s0) =~= Set::<(int, int)>::empty());
    assert forall|p: (int, int)|
        seq_cells(s4).contains(p) == (rect_cells(f).contains(p) && !rect_cells(u).contains(
            p,
        )) by {}
    assert(seq_cells(split_residuals(f, u)) =~= rect_cells(f).difference(rect_cells(u)));
}

/// The free-rectangle bin-packing engine for one fixed-size bin.
///
/// It keeps an unordered set of free rectangles covering the still-available
/// area (free rectangles may overlap each other, but none contains another)
/// and an append-only history of placed rectangles.
pub struct MaxRectsBinPack {
    bin_width: i32,
    bin_height: i32,
    used_rectangles: Vec<Rect>,
    free_rectangles: Vec<Rect>,
}

impl MaxRectsBinPack {
    pub closed spec fn width_spec(self) -> int {
        self.bin_width as int
    }

    pub closed spec fn height_spec(self) -> int {
        self.bin_height as int
    }

    /// The placed rectangles, in placement order.
    pub closed spec fn used_list(self) -> Seq<Rect> {
        self.used_rectangles@
    }

    /// The current free rectangles.
    pub closed spec fn free_list(self) -> Seq<Rect> {
        self.free_rectangles@
    }

    /// The engine invariant: positive bin area that fits in `i32`; all free
    /// and used rectangles lie inside the bin; free rectangles are disjoint
    /// from used ones; used rectangles are pairwise disjoint; and no free
    /// rectangle is contained in another.
    pub open spec fn wf(self) -> bool {
        &&& 0 < self.width_spec()
        &&& 0 < self.height_spec()
        &&& self.width_spec() * self.height_spec() <= i32::MAX
        &&& all_in_bin(self.free_list(), self.width_spec(), self.height_spec())
        &&& all_in_bin(self.used_list(), self.width_spec(), self.height_spec())
        &&& cross_disjoint(self.free_list(), self.used_list())
        &&& pairwise_disjoint(self.used_list())
        &&& no_containment(self.free_list())
    }

    /// A fresh engine over an empty `width` by `height` bin: one free
    /// rectangle spanning the whole bin, nothing placed.
    pub fn new(width: i32, height: i32) -> (r: MaxRectsBinPack)
        requires
            0 < width,
            0 < height,
            width * height <= i32::MAX,
        ensures
            r.wf(),
            r.width_spec() == width,
            r.height_spec() == height,
            r.used_list() == Seq::<Rect>::empty(),
            r.free_list() == seq![Rect { x: 0, y: 0, width, height }],
    {
        let mut free_rectangles: Vec<Rect> = Vec::new();
        free_rectangles.push(Rect { x: 0, y: 0, width, height });
        let r = MaxRectsBinPack { bin_width: width, bin_height: height, used_rectangles: Vec::new(), free_rectangles };
        proof {
            assert(r.free_list() =~= seq![Rect { x: 0, y: 0, width, height }]);
            assert(r.used_list() =~= Seq::<Rect>::empty());
        }
        r
    }

    /// Best-short-side-fit search: over all free rectangles and allowed
    /// orientations, picks the fitting position minimizing the pair (short
    /// leftover, long leftover) lexicographically. Returns the zero
    /// rectangle and `i32::MAX` scores when nothing fits.
    #[verifier::rlimit(60)]
    fn find_position_for_new_node_best_short_side_fit(
        &self,
        rot: bool,
        width: i32,
        height: i32,
    ) -> (r: (Rect, i32, i32))
        requires
            self.wf(),
            0 < width,
            0 < height,
        ensures
            (r.0.height == 0) <==> no_fit(self.free_list(), rot, width, height),
            r.0.height == 0 ==> r.0 == (Rect { x: 0, y: 0, width: 0, height: 0 }) && r.1
                == i32::MAX && r.2 == i32::MAX,
            r.0.height != 0 ==> is_placement(self.free_list(), rot, width, height, r.0),
            r.0.height != 0 ==> bssf_optimal(self.free_list(), rot, width, height, r.0),
            r.0.height != 0 ==> bssf_le_all(self.free_list(), rot, width, height, r.1 as int, r.2 as int),
            r.0.height != 0 ==> bssf_scores_of(
                self.free_list(),
                rot,
                width,
                height,
                r.0,
                r.1 as int,
                r.2 as int,
            ),
    {
        let mut best_node = Rect { x: 0, y: 0, width: 0, height: 0 };

        let mut best_short_side_fit = i32::MAX;
        let mut best_long_side_fit = i32::MAX;

        let ghost free = self.free_list();
        let ghost mut wi: int = 0;

        let n = self.free_rectangles.len();
        let mut idx: usize = 0;
        while idx < n
            invariant
                self.wf(),
                0 < width,
                0 < height,
                free == self.free_list(),
                n == free.len(),
                idx <= n,
                best_node.height == 0 ==> best_node == (Rect { x: 0, y: 0, width: 0, height: 0 })
                    && best_short_side_fit == i32::MAX && best_long_side_fit == i32::MAX,
                best_node.height == 0 ==> no_fit(free.take(idx as int), rot, width, height),
                best_node.height != 0 ==> 0 <= wi < idx && is_candidate(
                    free[wi],
                    rot,
                    width,
                    height,
                    best_node,
                ) && best_short_side_fit == leftover_short(free[wi], best_node.width, best_node.height)
                    && best_long_side_fit == leftover_long(free[wi], best_node.width, best_node.height),
                best_node.height != 0 ==> bssf_le_all(
                    free.take(idx as int),
                    rot,
                    width,
                    height,
                    best_short_side_fit as int,
                    best_long_side_fit as int,
                ),
            decreases n - idx,
        {
            let rect = self.free_rectangles[idx];
            // Try to place the rectangle in upright (non-flipped) orientation
            if rect.width >= width && rect.height >= height {
                let leftover_horiz = rect.width - width;
                let leftover_vert = rect.height - height;
                let short_side_fit = if leftover_horiz <= leftover_vert {
                    leftover_horiz
                } else {
                    leftover_vert
                };
                let long_side_fit = if leftover_horiz <= leftover_vert {
                    leftover_vert
                } else {
                    leftover_horiz
                };
                if short_side_fit < best_short_side_fit || (short_side_fit == best_short_side_fit
                    && long_side_fit < best_long_side_fit) {
                    best_node.x = rect.x;
                    best_node.y = rect.y;
                    best_node.width = width;
                    best_node.height = height;
                    best_short_side_fit = short_side_fit;
                    best_long_side_fit = long_side_fit;
                    proof {
                        wi = idx as int;
                    }
                }
            }
            if rot && rect.width >= height && rect.height >= width {
                let leftover_horiz = rect.width - height;
                let leftover_vert = rect.height - width;
                let short_side_fit = if leftover_horiz <= leftover_vert {
                    leftover_horiz
                } else {
                    leftover_vert
                };
                let long_side_fit = if leftover_horiz <= leftover_vert {
                    leftover_vert
                } else {
                    leftover_horiz
                };
                if short_side_fit < best_short_side_fit || (short_side_fit == best_short_side_fit
                    && long_side_fit < best_long_side_fit) {
                    best_node.x = rect.x;
                    best_node.y = rect.y;
                    best_node.width = height;
                    best_node.height = width;
                    best_short_side_fit = short_side_fit;
                    best_long_side_fit = long_side_fit;
                    proof {
                        wi = idx as int;
                    }
                }
            }
            proof {
                assert(free.take(idx + 1).drop_last() =~= free.take(idx as int));
            }
            idx += 1;
        }

        proof {
            assert(free.take(n as int) =~= free);
        }
        (best_node, best_short_side_fit, best_long_side_fit)
    }

    /// Best-long-side-fit search: like best-short-side-fit, but the long
    /// leftover side is compared first.
    #[verifier::rlimit(60)]
    fn find_position_for_new_node_best_long_side_fit(
        &self,
        rot: bool,
        width: i32,
        height: i32,
    ) -> (r: (Rect, i32, i32))
        requires
            self.wf(),
            0 < width,
            0 < height,
        ensures
            (r.0.height == 0) <==> no_fit(self.free_list(), rot, width, height),
            r.0.height == 0 ==> r.0 == (Rect { x: 0, y: 0, width: 0, height: 0 }) && r.1
                == i32::MAX && r.2 == i32::MAX,
            r.0.height != 0 ==> is_placement(self.free_list(), rot, width, height, r.0),
            r.0.height != 0 ==> blsf_optimal(self.free_list(), rot, width, height, r.0),
            r.0.height != 0 ==> blsf_le_all(self.free_list(), rot, width, height, r.1 as int, r.2 as int),
            r.0.height != 0 ==> blsf_scores_of(
                self.free_list(),
                rot,
                width,
                height,
                r.0,
                r.1 as int,
                r.2 as int,
            ),
    {
        let mut best_node = Rect { x: 0, y: 0, width: 0, height: 0 };

        let mut best_short_side_fit = i32::MAX;
        let mut best_long_side_fit = i32::MAX;

        let ghost free = self.free_list();
        let ghost mut wi: int = 0;

        let n = self.free_rectangles.len();
        let mut idx: usize = 0;
        while idx < n
            invariant
                self.wf(),
                0 < width,
                0 < height,
                free == self.free_list(),
                n == free.len(),
                idx <= n,
                best_node.height == 0 ==> best_node == (Rect { x: 0, y: 0, width: 0, height: 0 })
                    && best_short_side_fit == i32::MAX && best_long_side_fit == i32::MAX,
                best_node.height == 0 ==> no_fit(free.take(idx as int), rot, width, height),
                best_node.height != 0 ==> 0 <= wi < idx && is_candidate(
                    free[wi],
                    rot,
                    width,
                    height,
                    best_node,
                ) && best_short_side_fit == leftover_short(free[wi], best_node.width, best_node.height)
                    && best_long_side_fit == leftover_long(free[wi], best_node.width, best_node.height),
                best_node.height != 0 ==> blsf_le_all(
                    free.take(idx as int),
                    rot,
                    width,
                    height,
                    best_long_side_fit as int,
                    best_short_side_fit as int,
                ),
            decreases n - idx,
        {
            let rect = self.free_rectangles[idx];
            // Try to place the rectangle in upright (non-flipped) orientation
            if rect.width >= width && rect.height >= height {
                let leftover_horiz = rect.width - width;
                let leftover_vert = rect.height - height;
                let short_side_fit = if leftover_horiz <= leftover_vert {
                    leftover_horiz
                } else {
                    leftover_vert
                };
                let long_side_fit = if leftover_horiz <= leftover_vert {
                    leftover_vert
                } else {
                    leftover_horiz
                };
                if long_side_fit < best_long_side_fit || (long_side_fit == best_long_side_fit
                    && short_side_fit < best_short_side_fit) {
                    best_node.x = rect.x;
                    best_node.y = rect.y;
                    best_node.width = width;
                    best_node.height = height;
                    best_short_side_fit = short_side_fit;
                    best_long_side_fit = long_side_fit;
                    proof {
                        wi = idx as int;
                    }
                }
            }
            if rot && rect.width >= height && rect.height >= width {
                let leftover_horiz = rect.width - height;
                let leftover_vert = rect.height - width;
                let short_side_fit = if leftover_horiz <= leftover_vert {
                    leftover_horiz
                } else {
                    leftover_vert
                };
                let long_side_fit = if leftover_horiz <= leftover_vert {
                    leftover_vert
                } else {
                    leftover_horiz
                };
                if long_side_fit < best_long_side_fit || (long_side_fit == best_long_side_fit
                    && short_side_fit < best_short_side_fit) {
                    best_node.x = rect.x;
                    best_node.y = rect.y;
                    best_node.width = height;
                    best_node.height = width;
                    best_short_side_fit = short_side_fit;
                    best_long_side_fit = long_side_fit;
                    proof {
                        wi = idx as int;
                    }
                }
            }
            proof {
                assert(free.take(idx + 1).drop_last() =~= free.take(idx as int));
            }
            idx += 1;
        }

        proof {
            assert(free.take(n as int) =~= free);
        }
        (best_node, best_long_side_fit, best_short_side_fit)
    }

    /// Best-area-fit search: picks the fitting free rectangle with the
    /// least leftover area, breaking ties by short-side fit.
    #[verifier::rlimit(60)]
    fn find_position_for_new_node_best_area_fit(
        &self,
        rot: bool,
        width: i32,
        height: i32,
    ) -> (r: (Rect, i32, i32))
        requires
            self.wf(),
            0 < width,
            0 < height,
            width * height <= i32::MAX,
        ensures
            (r.0.height == 0) <==> no_fit(self.free_list(), rot, width, height),
            r.0.height == 0 ==> r.0 == (Rect { x: 0, y: 0, width: 0, height: 0 }) && r.1
                == i32::MAX && r.2 == i32::MAX,
            r.0.height != 0 ==> is_placement(self.free_list(), rot, width, height, r.0),
            r.0.height != 0 ==> baf_optimal(self.free_list(), rot, width, height, r.0),
            r.0.height != 0 ==> baf_le_all(self.free_list(), rot, width, height, r.1 as int, r.2 as int),
            r.0.height != 0 ==> baf_scores_of(
                self.free_list(),
                rot,
                width,
                height,
                r.0,
                r.1 as int,
                r.2 as int,
            ),
    {
        let mut best_node = Rect { x: 0, y: 0, width: 0, height: 0 };

        let mut best_area_fit = i32::MAX;
        let mut best_short_side_fit = i32::MAX;

        let ghost free = self.free_list();
        let ghost mut wi: int = 0;

        let n = self.free_rectangles.len();
        let mut idx: usize = 0;
        while idx < n
            invariant
                self.wf(),
                0 < width,
                0 < height,
                width * height <= i32::MAX,
                free == self.free_list(),
                n == free.len(),
                idx <= n,
                best_node.height == 0 ==> best_node == (Rect { x: 0, y: 0, width: 0, height: 0 })
                    && best_area_fit == i32::MAX && best_short_side_fit == i32::MAX,
                best_node.height == 0 ==> no_fit(free.take(idx as int), rot, width, height),
                best_node.height != 0 ==> 0 <= wi < idx && is_candidate(
                    free[wi],
                    rot,
                    width,
                    height,
                    best_node,
                ) && best_area_fit == free[wi].width * free[wi].height - width * height
                    && best_short_side_fit == leftover_short(free[wi], best_node.width, best_node.height),
                best_node.height != 0 ==> baf_le_all(
                    free.take(idx as int),
                    rot,
                    width,
                    height,
                    best_area_fit as int,
                    best_short_side_fit as int,
                ),
            decreases n - idx,
        {
            let rect = self.free_rectangles[idx];
            proof {
                assert(rect.width * rect.height <= self.width_spec() * self.height_spec())
                    by (nonlinear_arith)
                    requires
                        0 < rect.width <= self.width_spec(),
                        0 < rect.height <= self.height_spec(),
                ;
                assert(1 <= width * height) by (nonlinear_arith)
                    requires
                        0 < width,
                        0 < height,
                ;
            }
            let area_fit = rect.width * rect.height - width * height;

            // Try to place the rectangle in upright (non-flipped) orientation
            if rect.width >= width && rect.height >= height {
                let leftover_horiz = rect.width - width;
                let leftover_vert = rect.height - height;
                let short_side_fit = if leftover_horiz <= leftover_vert {
                    leftover_horiz
                } else {
                    leftover_vert
                };

                if area_fit < best_area_fit || (area_fit == best_area_fit && short_side_fit
                    < best_short_side_fit) {
                    best_node.x = rect.x;
                    best_node.y = rect.y;
                    best_node.width = width;
                    best_node.height = height;
                    best_area_fit = area_fit;
                    best_short_side_fit = short_side_fit;
                    proof {
                        wi = idx as int;
                    }
                }
            }
            if rot && rect.width >= height && rect.height >= width {
                let leftover_horiz = rect.width - height;
                let leftover_vert = rect.height - width;
                let short_side_fit = if leftover_horiz <= leftover_vert {
                    leftover_horiz
                } else {
                    leftover_vert
                };

                if area_fit < best_area_fit || (area_fit == best_area_fit && short_side_fit
                    < best_short_side_fit) {
                    best_node.x = rect.x;
                    best_node.y = rect.y;
                    best_node.width = height;
                    best_node.height = width;
                    best_area_fit = area_fit;
                    best_short_side_fit = short_side_fit;
                    proof {
                        wi = idx as int;
                    }
                }
            }
            proof {
                assert(free.take(idx + 1).drop_last() =~= free.take(idx as int));
            }
            idx += 1;
        }

        proof {
            assert(free.take(n as int) =~= free);
        }
        (best_node, best_area_fit, best_short_side_fit)
    }

    /// Bottom-left search: picks the fitting position whose top edge ends
    /// up lowest, breaking ties by the leftmost position.
    #[verifier::rlimit(60)]
    fn find_position_for_new_node_bottom_left(
        &self,
        rot: bool,
        width: i32,
        height: i32,
    ) -> (r: (Rect, i32, i32))
        requires
            self.wf(),
            0 < width,
            0 < height,
        ensures
            (r.0.height == 0) <==> no_fit(self.free_list(), rot, width, height),
            r.0.height == 0 ==> r.0 == (Rect { x: 0, y: 0, width: 0, height: 0 }) && r.1
                == i32::MAX && r.2 == i32::MAX,
            r.0.height != 0 ==> is_placement(self.free_list(), rot, width, height, r.0),
            r.0.height != 0 ==> bl_optimal(self.free_list(), rot, width, height, r.0),
            r.0.height != 0 ==> r.1 == r.0.y + r.0.height && r.2 == r.0.x,
    {
        let mut best_node = Rect { x: 0, y: 0, width: 0, height: 0 };

        let mut best_y = i32::MAX;
        let mut best_x = i32::MAX;

        let ghost free = self.free_list();
        let ghost mut wi: int = 0;

        let n = self.free_rectangles.len();
        let mut idx: usize = 0;
        while idx < n
            invariant
                self.wf(),
                0 < width,
                0 < height,
                free == self.free_list(),
                n == free.len(),
                idx <= n,
                best_node.height == 0 ==> best_node == (Rect { x: 0, y: 0, width: 0, height: 0 })
                    && best_y == i32::MAX && best_x == i32::MAX,
                best_node.height == 0 ==> no_fit(free.take(idx as int), rot, width, height),
                best_node.height != 0 ==> 0 <= wi < idx && is_candidate(
                    free[wi],
                    rot,
                    width,
                    height,
                    best_node,
                ) && best_y == best_node.y + best_node.height && best_x == best_node.x,
                best_node.height != 0 ==> bl_le_all(
                    free.take(idx as int),
                    rot,
                    width,
                    height,
                    best_y as int,
                    best_x as int,
                ),
            decreases n - idx,
        {
            let rect = self.free_rectangles[idx];
            // Try to place the rectangle in upright (non-flipped) orientation
            if rect.width >= width && rect.height >= height {
                let top_side_y = rect.y + height;
                if top_side_y < best_y || (top_side_y == best_y && rect.x < best_x) {
                    best_node.x = rect.x;
                    best_node.y = rect.y;
                    best_node.width = width;
                    best_node.height = height;
                    best_y = top_side_y;
                    best_x = rect.x;
                    proof {
                        wi = idx as int;
                    }
                }
            }
            if rot && rect.width >= height && rect.height >= width {
                let top_side_y = rect.y + width;
                if top_side_y < best_y || (top_side_y == best_y && rect.x < best_x) {
                    best_node.x = rect.x;
                    best_node.y = rect.y;
                    best_node.width = height;
                    best_node.height = width;
                    best_y = top_side_y;
                    best_x = rect.x;
                    proof {
                        wi = idx as int;
                    }
                }
            }
            proof {
                assert(free.take(idx + 1).drop_last() =~= free.take(idx as int));
            }
            idx += 1;
        }

        proof {
            assert(free.take(n as int) =~= free);
        }
        (best_node, best_y, best_x)
    }

    /// Contact-point score of a `width` by `height` rectangle placed at
    /// `(x, y)`: the summed lengths of the edges it shares with the bin
    /// border and with already placed rectangles.
    #[verifier::rlimit(60)]
    fn contact_point_score_node(&self, x: i32, y: i32, width: i32, height: i32) -> (score: i64)
        requires
            self.wf(),
            0 <= x,
            0 <= y,
            0 < width,
            0 < height,
            x + width <= self.width_spec(),
            y + height <= self.height_spec(),
        ensures
            score == cp_score(
                self.used_list(),
                self.width_spec(),
                self.height_spec(),
                x as int,
                y as int,
                width as int,
                height as int,
            ),
            0 <= score,
    {
        let ghost used = self.used_list();
        let ghost wh: int = width + height;
        proof {
            lemma_packed_count_bound(used, self.width_spec(), self.height_spec());
            assert(self.width_spec() + self.height_spec() <= self.width_spec() * self.height_spec()
                + 1) by (nonlinear_arith)
                requires
                    1 <= self.width_spec(),
                    1 <= self.height_spec(),
            ;
        }
        let mut score: i64 = 0;

        if x == 0 || x + width == self.bin_width {
            score += height as i64;
        }
        if y == 0 || y + height == self.bin_height {
            score += width as i64;
        }

        proof {
            assert((0 + 1) * wh == wh) by (nonlinear_arith);
        }
        let n = self.used_rectangles.len();
        let mut i: usize = 0;
        while i < n
            invariant
                self.wf(),
                0 <= x,
                0 <= y,
                0 < width,
                0 < height,
                x + width <= self.width_spec(),
                y + height <= self.height_spec(),
                used == self.used_list(),
                n == used.len(),
                i <= n,
                wh == width + height,
                0 < wh <= 0x8000_0000,
                n + 1 <= 0x8000_0000,
                score == cp_edge_score(
                    self.width_spec(),
                    self.height_spec(),
                    x as int,
                    y as int,
                    width as int,
                    height as int,
                ) + cp_used_score(used.take(i as int), x as int, y as int, width as int, height as int),
                0 <= score <= (i + 1) * wh,
            decreases n - i,
        {
            proof {
                assert((i + 2) * wh <= 0x8000_0000 * 0x8000_0000) by (nonlinear_arith)
                    requires
                        0 <= (i + 2) <= 0x8000_0000,
                        0 < wh <= 0x8000_0000,
                ;
                assert((i + 1) * wh + wh == (i + 2) * wh) by (nonlinear_arith);
            }
            let rect = self.used_rectangles[i];
            if rect.x == x + width || rect.x + rect.width == x {
                let c = common_interval_length(rect.y, rect.y + rect.height, y, y + height);
                score += c as i64;
            }
            if rect.y == y + height || rect.y + rect.height == y {
                let c = common_interval_length(rect.x, rect.x + rect.width, x, x + width);
                score += c as i64;
            }
            proof {
                assert(used.take(i + 1).drop_last() =~= used.take(i as int));
            }
            i += 1;
        }

        proof {
            assert(used.take(n as int) =~= used);
        }
        score
    }

    /// Contact-point search: picks the fitting position with the highest
    /// contact-point score. The raw best score is returned beside the
    /// position; it is `-1` when nothing fits.
    #[verifier::rlimit(60)]
    fn find_position_for_new_node_contact_point(
        &self,
        rot: bool,
        width: i32,
        height: i32,
    ) -> (r: (Rect, i64))
        requires
            self.wf(),
            0 < width,
            0 < height,
        ensures
            (r.0.height == 0) <==> no_fit(self.free_list(), rot, width, height),
            r.0.height == 0 ==> r.0 == (Rect { x: 0, y: 0, width: 0, height: 0 }) && r.1 == -1,
            r.0.height != 0 ==> is_placement(self.free_list(), rot, width, height, r.0),
            r.0.height != 0 ==> r.1 >= 0 && r.1 == cp_score(
                self.used_list(),
                self.width_spec(),
                self.height_spec(),
                r.0.x as int,
                r.0.y as int,
                r.0.width as int,
                r.0.height as int,
            ),
            r.0.height != 0 ==> cp_ge_all(
                self.free_list(),
                self.used_list(),
                self.width_spec(),
                self.height_spec(),
                rot,
                width,
                height,
                r.1 as int,
            ),
    {
        let mut best_node = Rect { x: 0, y: 0, width: 0, height: 0 };

        let mut best_contact_score: i64 = -1;

        let ghost free = self.free_list();
        let ghost mut wi: int = 0;

        let n = self.free_rectangles.len();
        let mut idx: usize = 0;
        while idx < n
            invariant
                self.wf(),
                0 < width,
                0 < height,
                free == self.free_list(),
                n == free.len(),
                idx <= n,
                best_node.height == 0 ==> best_node == (Rect { x: 0, y: 0, width: 0, height: 0 })
                    && best_contact_score == -1,
                best_node.height == 0 ==> no_fit(free.take(idx as int), rot, width, height),
                best_node.height != 0 ==> 0 <= wi < idx && is_candidate(
                    free[wi],
                    rot,
                    width,
                    height,
                    best_node,
                ) && best_contact_score >= 0 && best_contact_score == cp_score(
                    self.used_list(),
                    self.width_spec(),
                    self.height_spec(),
                    best_node.x as int,
                    best_node.y as int,
                    best_node.width as int,
                    best_node.height as int,
                ),
                best_node.height != 0 ==> cp_ge_all(
                    free.take(idx as int),
                    self.used_list(),
                    self.width_spec(),
                    self.height_spec(),
                    rot,
                    width,
                    height,
                    best_contact_score as int,
                ),
            decreases n - idx,
        {
            let rect = self.free_rectangles[idx];
            // Try to place the rectangle in upright (non-flipped) orientation
            if rect.width >= width && rect.height >= height {
                let score = self.contact_point_score_node(rect.x, rect.y, width, height);
                if score > best_contact_score {
                    best_node.x = rect.x;
                    best_node.y = rect.y;
                    best_node.width = width;
                    best_node.height = height;
                    best_contact_score = score;
                    proof {
                        wi = idx as int;
                    }
                }
            }
            if rot && rect.width >= height && rect.height >= width {
                let score = self.contact_point_score_node(rect.x, rect.y, height, width);
                if score > best_contact_score {
                    best_node.x = rect.x;
                    best_node.y = rect.y;
                    best_node.width = height;
                    best_node.height = width;
                    best_contact_score = score;
                    proof {
                        wi = idx as int;
                    }
                }
            }
            proof {
                assert(free.take(idx + 1).drop_last() =~= free.take(idx as int));
            }
            idx += 1;
        }

        proof {
            assert(free.take(n as int) =~= free);
        }
        (best_node, best_contact_score)
    }

    /// Splits `free_node` around `used_node`: when the two overlap, pushes
    /// onto the free list the up to four residual rectangles of
    /// `free_node` lying above, below, left and right of `used_node`, and
    /// reports whether `free_node` was split (and so must be removed).
    fn split_free_node(&mut self, free_node: &Rect, used_node: &Rect) -> (r: bool)
        requires
            rect_in_bin(*free_node, old(self).width_spec(), old(self).height_spec()),
            rect_in_bin(*used_node, old(self).width_spec(), old(self).height_spec()),
        ensures
            r == rects_overlap(*free_node, *used_node),
            final(self).width_spec() == old(self).width_spec(),
            final(self).height_spec() == old(self).height_spec(),
            final(self).used_list() == old(self).used_list(),
            !r ==> final(self).free_list() == old(self).free_list(),
            r ==> final(self).free_list() == old(self).free_list() + split_residuals(
                *free_node,
                *used_node,
            ),
            final(self).free_list().len() >= old(self).free_list().len(),
            final(self).free_list().take(old(self).free_list().len() as int) == old(self).free_list(),
            forall|k: int|
                old(self).free_list().len() <= k < final(self).free_list().len()
                    ==> rect_contained_in(#[trigger] final(self).free_list()[k], *free_node)
                    && rects_disjoint(final(self).free_list()[k], *used_node)
                    && final(self).free_list()[k].width > 0
                    && final(self).free_list()[k].height > 0,
    {
        // Test if the rectangles even intersect.
        if used_node.x >= free_node.x + free_node.width
            || used_node.x + used_node.width <= free_node.x
            || used_node.y >= free_node.y + free_node.height
            || used_node.y + used_node.height <= free_node.y
        {
            proof {
                assert(self.free_rectangles@.take(self.free_rectangles@.len() as int)
                    =~= self.free_rectangles@);
            }
            return false;
        }

        if used_node.x < free_node.x + free_node.width
            && used_node.x + used_node.width > free_node.x
        {
            // New node at the top side of the used node
            if used_node.y > free_node.y && used_node.y < free_node.y + free_node.height {
                let mut new_node = *free_node;
                new_node.height = used_node.y - new_node.y;
                self.free_rectangles.push(new_node);
            }

            // New node at the bottom side of the used node
            if used_node.y + used_node.height < free_node.y + free_node.height {
                let mut new_node = *free_node;
                new_node.y = used_node.y + used_node.height;
                new_node.height = free_node.y + free_node.height - (used_node.y
                    + used_node.height);
                self.free_rectangles.push(new_node);
            }
        }

        if used_node.y < free_node.y + free_node.height
            && used_node.y + used_node.height > free_node.y
        {
            // New node at the left side of the used node.
            if used_node.x > free_node.x && used_node.x < free_node.x + free_node.width {
                let mut new_node = *free_node;
                new_node.width = used_node.x - new_node.x;
                self.free_rectangles.push(new_node);
            }

            // New node at the right side of the used node
            if used_node.x + used_node.width < free_node.x + free_node.width {
                let mut new_node = *free_node;
                new_node.x = used_node.x + used_node.width;
                new_node.width = free_node.x + free_node.width - (used_node.x + used_node.width);
                self.free_rectangles.push(new_node);
            }
        }

        proof {
            assert(self.free_rectangles@.take(old(self).free_list().len() as int)
                =~= old(self).free_list());
            assert(self.free_rectangles@ =~= old(self).free_list() + split_residuals(
                *free_node,
                *used_node,
            ));
        }
        true
    }

    /// Removes every free rectangle that is contained in another free
    /// rectangle. It only removes (the survivors are a sub-multiset of the
    /// old list), and since each removed rectangle lay inside a survivor,
    /// the covered free area is unchanged.
    #[verifier::rlimit(60)]
    fn prune_free_list(&mut self)
        requires
            forall|k: int|
                0 <= k < old(self).free_list().len() ==> rect_sums_fit(
                    #[trigger] old(self).free_list()[k],
                ),
        ensures
            final(self).width_spec() == old(self).width_spec(),
            final(self).height_spec() == old(self).height_spec(),
            final(self).used_list() == old(self).used_list(),
            no_containment(final(self).free_list()),
            all_occur_in(final(self).free_list(), old(self).free_list()),
            seq_cells(final(self).free_list()) == seq_cells(old(self).free_list()),
            final(self).free_list().to_multiset().subset_of(old(self).free_list().to_multiset()),
    {
        let ghost orig = self.free_rectangles@;
        proof {
            assert forall|k: int| 0 <= k < self.free_rectangles@.len() implies (rect_sums_fit(
                #[trigger] self.free_rectangles@[k],
            ) && occurs_in(self.free_rectangles@[k], orig)) by {
                assert(rect_sums_fit(old(self).free_list()[k]));
                assert(self.free_rectangles@[k] == orig[k]);
            }
            assert(orig.to_multiset().subset_of(orig.to_multiset()));
        }
        let mut i: usize = 0;
        while i < self.free_rectangles.len()
            invariant
                i <= self.free_rectangles@.len(),
                self.used_rectangles@ == old(self).used_rectangles@,
                self.bin_width == old(self).bin_width,
                self.bin_height == old(self).bin_height,
                orig == old(self).free_rectangles@,
                all_occur_in(self.free_rectangles@, orig),
                seq_cells(self.free_rectangles@) == seq_cells(orig),
                self.free_rectangles@.to_multiset().subset_of(orig.to_multiset()),
                forall|k: int|
                    0 <= k < self.free_rectangles@.len() ==> rect_sums_fit(
                        #[trigger] self.free_rectangles@[k],
                    ),
                forall|a: int, b: int|
                    #![trigger self.free_rectangles@[a], self.free_rectangles@[b]]
                    0 <= a < i && a < b < self.free_rectangles@.len() ==> !rect_contained_in(
                        self.free_rectangles@[a],
                        self.free_rectangles@[b],
                    ) && !rect_contained_in(self.free_rectangles@[b], self.free_rectangles@[a]),
            decreases self.free_rectangles@.len() - i,
        {
            let ghost pre = self.free_rectangles@;
            let mut j: usize = i + 1;
            let mut removed_i = false;
            while j < self.free_rectangles.len()
                invariant_except_break
                    !removed_i,
                    i < j <= self.free_rectangles@.len(),
                invariant
                    self.used_rectangles@ == old(self).used_rectangles@,
                    self.bin_width == old(self).bin_width,
                    self.bin_height == old(self).bin_height,
                    orig == old(self).free_rectangles@,
                    self.free_rectangles@.len() <= pre.len(),
                    all_occur_in(self.free_rectangles@, orig),
                    seq_cells(self.free_rectangles@) == seq_cells(orig),
                    self.free_rectangles@.to_multiset().subset_of(orig.to_multiset()),
                    forall|k: int|
                        0 <= k < self.free_rectangles@.len() ==> rect_sums_fit(
                            #[trigger] self.free_rectangles@[k],
                        ),
                    forall|a: int, b: int|
                        #![trigger self.free_rectangles@[a], self.free_rectangles@[b]]
                        0 <= a < i && a < b < self.free_rectangles@.len() ==> !rect_contained_in(
                            self.free_rectangles@[a],
                            self.free_rectangles@[b],
                        ) && !rect_contained_in(self.free_rectangles@[b], self.free_rectangles@[a]),
                    !removed_i ==> forall|k: int|
                        i < k < j ==> !rect_contained_in(
                            self.free_rectangles@[i as int],
                            #[trigger] self.free_rectangles@[k],
                        ) && !rect_contained_in(
                            self.free_rectangles@[k],
                            self.free_rectangles@[i as int],
                        ),
                    removed_i ==> self.free_rectangles@.len() < pre.len(),
                ensures
                    i <= self.free_rectangles@.len(),
                    removed_i ==> self.free_rectangles@.len() < pre.len(),
                    !removed_i ==> i < self.free_rectangles@.len() && forall|k: int|
                        i < k < self.free_rectangles@.len() ==> !rect_contained_in(
                            self.free_rectangles@[i as int],
                            #[trigger] self.free_rectangles@[k],
                        ) && !rect_contained_in(
                            self.free_rectangles@[k],
                            self.free_rectangles@[i as int],
                        ),
                decreases self.free_rectangles@.len() - j,
            {
                let a = self.free_rectangles[i];
                let b = self.free_rectangles[j];
                if a.is_contained_in(&b) {
                    let ghost q = self.free_rectangles@;
                    self.free_rectangles.remove(i);
                    proof {
                        broadcast use vstd::multiset::group_multiset_axioms;

                        lemma_seq_cells_remove_contained(q, i as int, j as int);
                        vstd::seq_lib::to_multiset_remove(q, i as int);
                        assert forall|v: Rect|
                            self.free_rectangles@.to_multiset().count(v) <= orig.to_multiset().count(
                            v,
                        ) by {
                            assert(q.to_multiset().count(v) <= orig.to_multiset().count(v));
                        }
                        assert forall|k: int|
                            0 <= k < self.free_rectangles@.len() implies (rect_sums_fit(
                            #[trigger] self.free_rectangles@[k],
                        ) && occurs_in(self.free_rectangles@[k], orig)) by {
                            if k < i {
                                assert(self.free_rectangles@[k] == q[k]);
                            } else {
                                assert(self.free_rectangles@[k] == q[k + 1]);
                            }
                            assert(occurs_in(self.free_rectangles@[k], orig));
                        }
                        assert forall|a2: int, b2: int|
                            #![trigger self.free_rectangles@[a2], self.free_rectangles@[b2]]
                            0 <= a2 < i && a2 < b2
                                < self.free_rectangles@.len() implies !rect_contained_in(
                            self.free_rectangles@[a2],
                            self.free_rectangles@[b2],
                        ) && !rect_contained_in(
                            self.free_rectangles@[b2],
                            self.free_rectangles@[a2],
                        ) by {
                            assert(self.free_rectangles@[a2] == q[a2]);
                            if b2 < i {
                                assert(self.free_rectangles@[b2] == q[b2]);
                            } else {
                                assert(self.free_rectangles@[b2] == q[b2 + 1]);
                            }
                        }
                    }
                    removed_i = true;
                    break;
                }
                if b.is_contained_in(&a) {
                    let ghost q = self.free_rectangles@;
                    self.free_rectangles.remove(j);
                    proof {
                        broadcast use vstd::multiset::group_multiset_axioms;

                        lemma_seq_cells_remove_contained(q, j as int, i as int);
                        vstd::seq_lib::to_multiset_remove(q, j as int);
                        assert forall|v: Rect|
                            self.free_rectangles@.to_multiset().count(v) <= orig.to_multiset().count(
                            v,
                        ) by {
                            assert(q.to_multiset().count(v) <= orig.to_multiset().count(v));
                        }
                        assert forall|k: int|
                            0 <= k < self.free_rectangles@.len() implies (rect_sums_fit(
                            #[trigger] self.free_rectangles@[k],
                        ) && occurs_in(self.free_rectangles@[k], orig)) by {
                            if k < j {
                                assert(self.free_rectangles@[k] == q[k]);
                            } else {
                                assert(self.free_rectangles@[k] == q[k + 1]);
                            }
                            assert(occurs_in(self.free_rectangles@[k], orig));
                        }
                        assert forall|a2: int, b2: int|
                            #![trigger self.free_rectangles@[a2], self.free_rectangles@[b2]]
                            0 <= a2 < i && a2 < b2
                                < self.free_rectangles@.len() implies !rect_contained_in(
                            self.free_rectangles@[a2],
                            self.free_rectangles@[b2],
                        ) && !rect_contained_in(
                            self.free_rectangles@[b2],
                            self.free_rectangles@[a2],
                        ) by {
                            assert(self.free_rectangles@[a2] == q[a2]);
                            if b2 < j {
                                assert(self.free_rectangles@[b2] == q[b2]);
                            } else {
                                assert(self.free_rectangles@[b2] == q[b2 + 1]);
                            }
                        }
                        assert forall|k: int| i < k < j implies !rect_contained_in(
                            self.free_rectangles@[i as int],
                            #[trigger] self.free_rectangles@[k],
                        ) && !rect_contained_in(
                            self.free_rectangles@[k],
                            self.free_rectangles@[i as int],
                        ) by {
                            assert(self.free_rectangles@[k] == q[k]);
                            assert(self.free_rectangles@[i as int] == q[i as int]);
                        }
                    }
                } else {
                    j += 1;
                }
            }
            if !removed_i {
                i += 1;
            }
        }
    }

    /// Commits a placement: splits every free rectangle that `node`
    /// overlaps into its residuals, prunes contained free rectangles, and
    /// appends `node` to the used history. `node` must fit inside one of
    /// the current free rectangles. The covered free area afterwards is
    /// exactly the old free area minus `node`'s cells.
    #[verifier::rlimit(60)]
    fn place_rect(&mut self, node: &Rect)
        requires
            old(self).wf(),
            node.width > 0,
            node.height > 0,
            exists|i: int|
                0 <= i < old(self).free_list().len() && rect_contained_in(
                    *node,
                    #[trigger] old(self).free_list()[i],
                ),
        ensures
            final(self).wf(),
            final(self).width_spec() == old(self).width_spec(),
            final(self).height_spec() == old(self).height_spec(),
            final(self).used_list() == old(self).used_list().push(*node),
            all_disjoint_from(old(self).used_list(), *node),
            rect_in_bin(*node, old(self).width_spec(), old(self).height_spec()),
            seq_cells(final(self).free_list()) == seq_cells(old(self).free_list()).difference(
                rect_cells(*node),
            ),
    {
        proof {
            let wi = choose|i: int|
                0 <= i < old(self).free_list().len() && rect_contained_in(
                    *node,
                    #[trigger] old(self).free_list()[i],
                );
            assert(rect_in_bin(*node, old(self).width_spec(), old(self).height_spec()));
            assert forall|u: int| 0 <= u < old(self).used_list().len() implies rects_disjoint(
                #[trigger] old(self).used_list()[u],
                *node,
            ) by {
                lemma_contained_disjoint(*node, old(self).free_list()[wi], old(self).used_list()[u]);
            }
        }

        let mut num_rectangles_to_process = self.free_rectangles.len();
        let mut i: usize = 0;
        while i < num_rectangles_to_process
            invariant
                i <= num_rectangles_to_process <= self.free_rectangles@.len(),
                self.bin_width == old(self).bin_width,
                self.bin_height == old(self).bin_height,
                self.used_rectangles@ == old(self).used_rectangles@,
                0 < self.width_spec(),
                0 < self.height_spec(),
                self.width_spec() * self.height_spec() <= i32::MAX,
                rect_in_bin(*node, self.width_spec(), self.height_spec()),
                all_in_bin(self.free_list(), self.width_spec(), self.height_spec()),
                all_in_bin(self.used_list(), self.width_spec(), self.height_spec()),
                pairwise_disjoint(self.used_list()),
                cross_disjoint(self.free_list(), self.used_list()),
                forall|k: int|
                    0 <= k < i ==> rects_disjoint(#[trigger] self.free_rectangles@[k], *node),
                forall|k: int|
                    num_rectangles_to_process <= k < self.free_rectangles@.len()
                        ==> rects_disjoint(#[trigger] self.free_rectangles@[k], *node),
                seq_cells(self.free_rectangles@).difference(rect_cells(*node)) == seq_cells(
                    old(self).free_list(),
                ).difference(rect_cells(*node)),
            decreases num_rectangles_to_process - i,
        {
            let r = self.free_rectangles[i];
            let ghost pre_list = self.free_rectangles@;
            let ghost pre_len = self.free_rectangles@.len() as int;
            let did_split = self.split_free_node(&r, node);
            if did_split {
                proof {
                    assert forall|k: int|
                        pre_len <= k < self.free_rectangles@.len() implies rects_disjoint(
                        #[trigger] self.free_rectangles@[k],
                        *node,
                    ) && rect_in_bin(
                        self.free_rectangles@[k],
                        self.width_spec(),
                        self.height_spec(),
                    ) by {
                        assert(rect_contained_in(self.free_rectangles@[k], r));
                    }
                    assert forall|k: int, u: int|
                        #![trigger self.free_rectangles@[k], self.used_rectangles@[u]]
                        0 <= k < self.free_rectangles@.len() && 0 <= u
                            < self.used_rectangles@.len() implies rects_disjoint(
                        self.free_rectangles@[k],
                        self.used_rectangles@[u],
                    ) by {
                        if k >= pre_len {
                            lemma_contained_disjoint(
                                self.free_rectangles@[k],
                                r,
                                self.used_rectangles@[u],
                            );
                        } else {
                            assert(self.free_rectangles@[k]
                                == self.free_rectangles@.take(pre_len)[k]);
                        }
                    }
                }
                let ghost q = self.free_rectangles@;
                self.free_rectangles.remove(i);
                proof {
                    assert forall|k: int|
                        0 <= k < self.free_rectangles@.len() implies rect_in_bin(
                        #[trigger] self.free_rectangles@[k],
                        self.width_spec(),
                        self.height_spec(),
                    ) by {
                        if k < i {
                            assert(self.free_rectangles@[k] == q[k]);
                            assert(q[k] == q.take(pre_len)[k]);
                        } else if k + 1 < pre_len {
                            assert(self.free_rectangles@[k] == q[k + 1]);
                            assert(q[k + 1] == q.take(pre_len)[k + 1]);
                        } else {
                            assert(self.free_rectangles@[k] == q[k + 1]);
                        }
                    }
                    assert forall|k: int, u: int|
                        #![trigger self.free_rectangles@[k], self.used_rectangles@[u]]
                        0 <= k < self.free_rectangles@.len() && 0 <= u
                            < self.used_rectangles@.len() implies rects_disjoint(
                        self.free_rectangles@[k],
                        self.used_rectangles@[u],
                    ) by {
                        if k < i {
                            assert(self.free_rectangles@[k] == q[k]);
                        } else {
                            assert(self.free_rectangles@[k] == q[k + 1]);
                        }
                    }
                    assert forall|k: int| 0 <= k < i implies rects_disjoint(
                        #[trigger] self.free_rectangles@[k],
                        *node,
                    ) by {
                        assert(self.free_rectangles@[k] == q[k]);
                        assert(q[k] == q.take(pre_len)[k]);
                    }
                    assert forall|k: int|
                        num_rectangles_to_process - 1 <= k
                            < self.free_rectangles@.len() implies rects_disjoint(
                        #[trigger] self.free_rectangles@[k],
                        *node,
                    ) by {
                        assert(self.free_rectangles@[k] == q[k + 1]);
                        if k + 1 < pre_len {
                            assert(q[k + 1] == q.take(pre_len)[k + 1]);
                        }
                    }
                    // The free area outside `node` is untouched: the removed
                    // rectangle's cells outside `node` live on in its
                    // residuals.
                    lemma_split_residuals_cover(r, *node);
                    assert(q == pre_list + split_residuals(r, *node));
                    assert forall|p: (int, int)|
                        seq_cells(self.free_rectangles@).contains(p) && !rect_cells(
                            *node,
                        ).contains(p) implies seq_cells(pre_list).contains(p) by {
                        lemma_seq_cells_membership(self.free_rectangles@, p);
                        lemma_seq_cells_membership(pre_list, p);
                        lemma_seq_cells_membership(split_residuals(r, *node), p);
                        let k = choose|k: int|
                            0 <= k < self.free_rectangles@.len() && rect_cells(
                                #[trigger] self.free_rectangles@[k],
                            ).contains(p);
                        let kq: int = if k < i {
                            k
                        } else {
                            k + 1
                        };
                        assert(self.free_rectangles@[k] == q[kq]);
                        if kq < pre_len {
                            assert(q[kq] == pre_list[kq]);
                            assert(rect_cells(pre_list[kq]).contains(p));
                        } else {
                            assert(q[kq] == split_residuals(r, *node)[kq - pre_len]);
                            assert(seq_cells(split_residuals(r, *node)).contains(p));
                            assert(rect_cells(r).contains(p));
                            assert(pre_list[i as int] == r);
                            assert(rect_cells(pre_list[i as int]).contains(p));
                        }
                    }
                    assert forall|p: (int, int)|
                        seq_cells(pre_list).contains(p) && !rect_cells(*node).contains(
                            p,
                        ) implies seq_cells(self.free_rectangles@).contains(p) by {
                        lemma_seq_cells_membership(self.free_rectangles@, p);
                        lemma_seq_cells_membership(pre_list, p);
                        lemma_seq_cells_membership(split_residuals(r, *node), p);
                        let k = choose|k: int|
                            0 <= k < pre_list.len() && rect_cells(
                                #[trigger] pre_list[k],
                            ).contains(p);
                        if k != i {
                            assert(q[k] == pre_list[k]);
                            let kc: int = if k < i {
                                k
                            } else {
                                k - 1
                            };
                            assert(self.free_rectangles@[kc] == q[k]);
                            assert(rect_cells(self.free_rectangles@[kc]).contains(p));
                        } else {
                            assert(rect_cells(r).contains(p));
                            assert(rect_cells(r).difference(rect_cells(*node)).contains(p));
                            assert(seq_cells(split_residuals(r, *node)).contains(p));
                            let m = choose|m: int|
                                0 <= m < split_residuals(r, *node).len() && rect_cells(
                                    #[trigger] split_residuals(r, *node)[m],
                                ).contains(p);
                            assert(q[pre_len + m] == split_residuals(r, *node)[m]);
                            assert(self.free_rectangles@[pre_len + m - 1] == q[pre_len + m]);
                            assert(rect_cells(self.free_rectangles@[pre_len + m - 1]).contains(p));
                        }
                    }
                    assert(seq_cells(self.free_rectangles@).difference(rect_cells(*node))
                        =~= seq_cells(pre_list).difference(rect_cells(*node)));
                }
                num_rectangles_to_process -= 1;
            } else {
                i += 1;
            }
        }

        proof {
            assert(forall|k: int|
                0 <= k < self.free_rectangles@.len() ==> rects_disjoint(
                    #[trigger] self.free_rectangles@[k],
                    *node,
                ));
            assert(forall|k: int|
                0 <= k < self.free_rectangles@.len() ==> rect_sums_fit(
                    #[trigger] self.free_rectangles@[k],
                ));
            lemma_seq_cells_disjoint_from(self.free_rectangles@, *node);
            assert(seq_cells(self.free_rectangles@) =~= seq_cells(
                self.free_rectangles@,
            ).difference(rect_cells(*node)));
        }
        let ghost before_prune = self.free_rectangles@;

        self.prune_free_list();

        proof {
            assert forall|k: int| 0 <= k < self.free_rectangles@.len() implies rect_in_bin(
                #[trigger] self.free_rectangles@[k],
                self.width_spec(),
                self.height_spec(),
            ) && rects_disjoint(self.free_rectangles@[k], *node) && all_disjoint_from(
                self.used_list(),
                self.free_rectangles@[k],
            ) by {
                assert(occurs_in(self.free_rectangles@[k], before_prune));
                let j = choose|j: int|
                    0 <= j < before_prune.len() && self.free_rectangles@[k]
                        == #[trigger] before_prune[j];
                assert(rect_in_bin(before_prune[j], self.width_spec(), self.height_spec()));
            }
        }

        self.used_rectangles.push(*node);

        proof {
            assert(self.used_list() =~= old(self).used_list().push(*node));
            assert(all_in_bin(self.used_list(), self.width_spec(), self.height_spec()));
            assert(pairwise_disjoint(self.used_list()));
            assert(cross_disjoint(self.free_list(), self.used_list()));
        }
    }

    /// Finds and commits the best-scoring placement for one `width` by
    /// `height` rectangle under `method`. Returns the placement rectangle
    /// (its dimensions reflect rotation when rotation won the score
    /// comparison), or the zero-height sentinel when no free rectangle can
    /// take the item in any allowed orientation; on failure nothing is
    /// changed. On success the placement is optimally scored under
    /// `method` and the covered free area shrinks by exactly the
    /// placement's cells.
    pub fn insert(
        &mut self,
        width: i32,
        height: i32,
        rot: bool,
        method: FreeRectChoiceHeuristic,
    ) -> (r: Rect)
        requires
            old(self).wf(),
            0 < width,
            0 < height,
            width * height <= i32::MAX,
        ensures
            final(self).wf(),
            final(self).width_spec() == old(self).width_spec(),
            final(self).height_spec() == old(self).height_spec(),
            (r.height == 0) <==> no_fit(old(self).free_list(), rot, width, height),
            r.height == 0 ==> r == (Rect { x: 0, y: 0, width: 0, height: 0 })
                && final(self).free_list() == old(self).free_list()
                && final(self).used_list() == old(self).used_list(),
            r.height != 0 ==> is_placement(old(self).free_list(), rot, width, height, r),
            r.height != 0 ==> rect_in_bin(r, old(self).width_spec(), old(self).height_spec()),
            r.height != 0 ==> final(self).used_list() == old(self).used_list().push(r),
            r.height != 0 ==> all_disjoint_from(old(self).used_list(), r),
            r.height != 0 ==> seq_cells(final(self).free_list()) == seq_cells(
                old(self).free_list(),
            ).difference(rect_cells(r)),
            r.height != 0 && method is RectBestShortSideFit ==> bssf_optimal(
                old(self).free_list(),
                rot,
                width,
                height,
                r,
            ),
            r.height != 0 && method is RectBestLongSideFit ==> blsf_optimal(
                old(self).free_list(),
                rot,
                width,
                height,
                r,
            ),
            r.height != 0 && method is RectBestAreaFit ==> baf_optimal(
                old(self).free_list(),
                rot,
                width,
                height,
                r,
            ),
            r.height != 0 && method is RectBottomLeftRule ==> bl_optimal(
                old(self).free_list(),
                rot,
                width,
                height,
                r,
            ),
            r.height != 0 && method is RectContactPointRule ==> cp_optimal(
                old(self).free_list(),
                old(self).used_list(),
                old(self).width_spec(),
                old(self).height_spec(),
                rot,
                width,
                height,
                r,
            ),
    {
        let new_node = match method {
            FreeRectChoiceHeuristic::RectBestShortSideFit => {
                self.find_position_for_new_node_best_short_side_fit(rot, width, height).0
            },
            FreeRectChoiceHeuristic::RectBottomLeftRule => {
                self.find_position_for_new_node_bottom_left(rot, width, height).0
            },
            FreeRectChoiceHeuristic::RectContactPointRule => {
                self.find_position_for_new_node_contact_point(rot, width, height).0
            },
            FreeRectChoiceHeuristic::RectBestLongSideFit => {
                self.find_position_for_new_node_best_long_side_fit(rot, width, height).0
            },
            FreeRectChoiceHeuristic::RectBestAreaFit => {
                self.find_position_for_new_node_best_area_fit(rot, width, height).0
            },
        };

        if new_node.height == 0 {
            return new_node;
        }

        proof {
            let i = choose|i: int|
                0 <= i < self.free_list().len() && is_candidate(
                    #[trigger] self.free_list()[i],
                    rot,
                    width,
                    height,
                    new_node,
                );
            assert(rect_contained_in(new_node, self.free_list()[i]));
        }
        self.place_rect(&new_node);
        new_node
    }

    /// Scores the placement `insert` would choose under `method` without
    /// committing it; used by `insert_list` to compare candidates across
    /// rectangles. Both scores are `i64::MAX` when nothing fits.
    fn score_rect(
        &self,
        width: i32,
        height: i32,
        rot: bool,
        method: FreeRectChoiceHeuristic,
    ) -> (r: (Rect, i64, i64))
        requires
            self.wf(),
            0 < width,
            0 < height,
            width * height <= i32::MAX,
        ensures
            (r.0.height == 0) <==> no_fit(self.free_list(), rot, width, height),
            r.0.height == 0 ==> r.0 == (Rect { x: 0, y: 0, width: 0, height: 0 }) && r.1
                == i64::MAX && r.2 == i64::MAX,
            r.0.height != 0 ==> is_placement(self.free_list(), rot, width, height, r.0) && r.1
                < i64::MAX,
            r.0.height != 0 && method is RectBestShortSideFit ==> bssf_optimal(
                self.free_list(),
                rot,
                width,
                height,
                r.0,
            ) && bssf_scores_of(self.free_list(), rot, width, height, r.0, r.1 as int, r.2 as int),
            r.0.height != 0 && method is RectBestLongSideFit ==> blsf_optimal(
                self.free_list(),
                rot,
                width,
                height,
                r.0,
            ) && blsf_scores_of(self.free_list(), rot, width, height, r.0, r.1 as int, r.2 as int),
            r.0.height != 0 && method is RectBestAreaFit ==> baf_optimal(
                self.free_list(),
                rot,
                width,
                height,
                r.0,
            ) && baf_scores_of(self.free_list(), rot, width, height, r.0, r.1 as int, r.2 as int),
            r.0.height != 0 && method is RectBottomLeftRule ==> bl_optimal(
                self.free_list(),
                rot,
                width,
                height,
                r.0,
            ) && r.1 == r.0.y + r.0.height && r.2 == r.0.x,
            r.0.height != 0 && method is RectContactPointRule ==> cp_optimal(
                self.free_list(),
                self.used_list(),
                self.width_spec(),
                self.height_spec(),
                rot,
                width,
                height,
                r.0,
            ) && r.1 == -cp_score(
                self.used_list(),
                self.width_spec(),
                self.height_spec(),
                r.0.x as int,
                r.0.y as int,
                r.0.width as int,
                r.0.height as int,
            ) && r.2 == i64::MAX,
    {
        let (new_node, score1, score2): (Rect, i64, i64) = match method {
            FreeRectChoiceHeuristic::RectBestShortSideFit => {
                let (n, s1, s2) = self.find_position_for_new_node_best_short_side_fit(
                    rot,
                    width,
                    height,
                );
                (n, s1 as i64, s2 as i64)
            },
            FreeRectChoiceHeuristic::RectBottomLeftRule => {
                let (n, s1, s2) = self.find_position_for_new_node_bottom_left(rot, width, height);
                (n, s1 as i64, s2 as i64)
            },
            FreeRectChoiceHeuristic::RectContactPointRule => {
                let (n, s1) = self.find_position_for_new_node_contact_point(rot, width, height);
                // Reverse since we're minimizing, but for contact point score bigger is better
                (n, -s1, i64::MAX)
            },
            FreeRectChoiceHeuristic::RectBestLongSideFit => {
                let (n, s1, s2) = self.find_position_for_new_node_best_long_side_fit(
                    rot,
                    width,
                    height,
                );
                (n, s1 as i64, s2 as i64)
            },
            FreeRectChoiceHeuristic::RectBestAreaFit => {
                let (n, s1, s2) = self.find_position_for_new_node_best_area_fit(
                    rot,
                    width,
                    height,
                );
                (n, s1 as i64, s2 as i64)
            },
        };

        // Cannot fit the current rectangle
        if new_node.height == 0 {
            return (new_node, i64::MAX, i64::MAX);
        }

        (new_node, score1, score2)
    }

    /// Batch insertion: repeatedly scores every remaining rectangle and
    /// commits only the single globally best-scoring placement per round,
    /// removing the chosen rectangle from the remaining set, until nothing
    /// fits any more. Returns the committed placements in commit order;
    /// they pair injectively with distinct inputs, and every input left
    /// over no longer fits the final free list.
    #[verifier::rlimit(60)]
    pub fn insert_list(&mut self, rects: &[Rect], rot: bool, method: FreeRectChoiceHeuristic) -> (dst: Vec<Rect>)
        requires
            old(self).wf(),
            forall|i: int|
                0 <= i < rects@.len() ==> 0 < (#[trigger] rects@[i]).width && 0
                    < rects@[i].height && rects@[i].width * rects@[i].height <= i32::MAX,
        ensures
            final(self).wf(),
            final(self).width_spec() == old(self).width_spec(),
            final(self).height_spec() == old(self).height_spec(),
            final(self).used_list() == old(self).used_list() + dst@,
            dst@.len() <= rects@.len(),
            forall|k: int|
                0 <= k < dst@.len() ==> rect_in_bin(
                    #[trigger] dst@[k],
                    old(self).width_spec(),
                    old(self).height_spec(),
                ) && from_some_input(rects@, dst@[k], rot),
            (exists|i: int|
                0 <= i < rects@.len() && !no_fit(
                    old(self).free_list(),
                    rot,
                    (#[trigger] rects@[i]).width,
                    rects@[i].height,
                )) ==> dst@.len() > 0,
            exists|m: Seq<int>| batch_outcome(dst@, rects@, rot, final(self).free_list(), m),
    {
        let mut dst: Vec<Rect> = Vec::new();
        let mut remaining: Vec<Rect> = Vec::new();
        let ghost mut picked: Seq<int> = Seq::<int>::empty();
        let ghost mut rem_src: Seq<int> = Seq::<int>::empty();
        let n = rects.len();
        let mut t: usize = 0;
        while t < n
            invariant
                t <= n,
                n == rects@.len(),
                remaining@ == rects@.take(t as int),
                rem_src.len() == t,
                forall|k: int| 0 <= k < t ==> #[trigger] rem_src[k] == k,
            decreases n - t,
        {
            remaining.push(rects[t]);
            proof {
                assert(rects@.take(t + 1).drop_last() =~= rects@.take(t as int));
                rem_src = rem_src.push(t as int);
            }
            t += 1;
        }
        proof {
            assert(rects@.take(n as int) =~= rects@);
            assert forall|i: int| 0 <= i < rects@.len() implies picked.contains(i)
                || rem_src.contains(i) by {
                assert(rem_src[i] == i);
            }
        }

        let mut done = false;
        while !done && remaining.len() > 0
            invariant
                self.wf(),
                self.width_spec() == old(self).width_spec(),
                self.height_spec() == old(self).height_spec(),
                self.used_list() == old(self).used_list() + dst@,
                dst@.len() + remaining@.len() == rects@.len(),
                forall|i: int|
                    0 <= i < rects@.len() ==> 0 < (#[trigger] rects@[i]).width && 0
                        < rects@[i].height && rects@[i].width * rects@[i].height <= i32::MAX,
                picked.len() == dst@.len(),
                rem_src.len() == remaining@.len(),
                forall|k: int|
                    0 <= k < picked.len() ==> 0 <= #[trigger] picked[k] < rects@.len()
                        && dims_match(rects@[picked[k]], dst@[k], rot),
                forall|k: int|
                    0 <= k < rem_src.len() ==> 0 <= #[trigger] rem_src[k] < rects@.len()
                        && remaining@[k] == rects@[rem_src[k]],
                forall|k1: int, k2: int|
                    #![trigger picked[k1], picked[k2]]
                    0 <= k1 < k2 < picked.len() ==> picked[k1] != picked[k2],
                forall|k1: int, k2: int|
                    #![trigger rem_src[k1], rem_src[k2]]
                    0 <= k1 < k2 < rem_src.len() ==> rem_src[k1] != rem_src[k2],
                forall|a: int, b: int|
                    #![trigger picked[a], rem_src[b]]
                    0 <= a < picked.len() && 0 <= b < rem_src.len() ==> picked[a] != rem_src[b],
                forall|i: int| 0 <= i < rects@.len() ==> picked.contains(i) || rem_src.contains(i),
                forall|k: int|
                    0 <= k < dst@.len() ==> rect_in_bin(
                        #[trigger] dst@[k],
                        old(self).width_spec(),
                        old(self).height_spec(),
                    ) && from_some_input(rects@, dst@[k], rot),
                dst@.len() == 0 ==> self.free_list() == old(self).free_list() && remaining@
                    == rects@,
                done ==> forall|k: int|
                    0 <= k < remaining@.len() ==> no_fit(
                        self.free_list(),
                        rot,
                        (#[trigger] remaining@[k]).width,
                        remaining@[k].height,
                    ),
            decreases remaining@.len(), (if done { 0int } else { 1int }),
        {
            proof {
                assert forall|k: int|
                    0 <= k < remaining@.len() implies 0 < (#[trigger] remaining@[k]).width && 0
                        < remaining@[k].height && remaining@[k].width * remaining@[k].height
                        <= i32::MAX by {
                    assert(remaining@[k] == rects@[rem_src[k]]);
                }
            }
            let mut best_score_1 = i64::MAX;
            let mut best_score_2 = i64::MAX;
            let mut best_rect_index: usize = 0;
            let mut found = false;
            let mut best_node = Rect { x: 0, y: 0, width: 0, height: 0 };

            let m = remaining.len();
            let mut idx: usize = 0;
            while idx < m
                invariant
                    self.wf(),
                    m == remaining@.len(),
                    idx <= m,
                    forall|k: int|
                        0 <= k < remaining@.len() ==> 0 < (#[trigger] remaining@[k]).width && 0
                            < remaining@[k].height && remaining@[k].width * remaining@[k].height
                            <= i32::MAX,
                    found ==> best_node.height != 0 && best_rect_index < m && is_placement(
                        self.free_list(),
                        rot,
                        remaining@[best_rect_index as int].width,
                        remaining@[best_rect_index as int].height,
                        best_node,
                    ) && best_score_1 < i64::MAX,
                    !found ==> best_score_1 == i64::MAX && best_score_2 == i64::MAX,
                    !found ==> forall|k: int|
                        0 <= k < idx ==> no_fit(
                            self.free_list(),
                            rot,
                            (#[trigger] remaining@[k]).width,
                            remaining@[k].height,
                        ),
                decreases m - idx,
            {
                let (new_node, score1, score2) = self.score_rect(
                    remaining[idx].width,
                    remaining[idx].height,
                    rot,
                    method,
                );

                if score1 < best_score_1 || (score1 == best_score_1 && score2 < best_score_2) {
                    best_score_1 = score1;
                    best_score_2 = score2;
                    best_node = new_node;
                    best_rect_index = idx;
                    found = true;
                }
                idx += 1;
            }

            if !found {
                done = true;
                continue;
            }

            proof {
                let i = choose|i: int|
                    0 <= i < self.free_list().len() && is_candidate(
                        #[trigger] self.free_list()[i],
                        rot,
                        remaining@[best_rect_index as int].width,
                        remaining@[best_rect_index as int].height,
                        best_node,
                    );
                assert(rect_contained_in(best_node, self.free_list()[i]));
                assert(dims_match(remaining@[best_rect_index as int], best_node, rot));
            }
            let ghost rem_pre = remaining@;
            let ghost src_pre = rem_src;
            let ghost picked_pre = picked;
            proof {
                picked = picked.push(src_pre[best_rect_index as int]);
                rem_src = rem_src.remove(best_rect_index as int);
            }
            self.place_rect(&best_node);
            remaining.remove(best_rect_index);
            dst.push(best_node);
            proof {
                assert(self.used_list() =~= old(self).used_list() + dst@);
                let pi = src_pre[best_rect_index as int];
                assert(rem_pre[best_rect_index as int] == rects@[pi]);
                assert(dims_match(rects@[pi], dst@.last(), rot));
                assert(from_some_input(rects@, dst@.last(), rot));
                assert forall|k: int| 0 <= k < dst@.len() implies from_some_input(
                    rects@,
                    #[trigger] dst@[k],
                    rot,
                ) by {
                    if k < dst@.len() - 1 {
                        assert(dims_match(rects@[picked_pre[k]], dst@[k], rot));
                    }
                }
                assert forall|k: int|
                    0 <= k < rem_src.len() implies 0 <= #[trigger] rem_src[k] < rects@.len()
                        && remaining@[k] == rects@[rem_src[k]] by {
                    if k < best_rect_index {
                        assert(rem_src[k] == src_pre[k]);
                        assert(remaining@[k] == rem_pre[k]);
                    } else {
                        assert(rem_src[k] == src_pre[k + 1]);
                        assert(remaining@[k] == rem_pre[k + 1]);
                    }
                }
                assert forall|k1: int, k2: int|
                    #![trigger rem_src[k1], rem_src[k2]]
                    0 <= k1 < k2 < rem_src.len() implies rem_src[k1] != rem_src[k2] by {
                    let j1: int = if k1 < best_rect_index {
                        k1
                    } else {
                        k1 + 1
                    };
                    let j2: int = if k2 < best_rect_index {
                        k2
                    } else {
                        k2 + 1
                    };
                    assert(rem_src[k1] == src_pre[j1]);
                    assert(rem_src[k2] == src_pre[j2]);
                }
                assert forall|a: int, b: int|
                    #![trigger picked[a], rem_src[b]]
                    0 <= a < picked.len() && 0 <= b < rem_src.len() implies picked[a]
                        != rem_src[b] by {
                    let jb: int = if b < best_rect_index {
                        b
                    } else {
                        b + 1
                    };
                    assert(rem_src[b] == src_pre[jb]);
                    if a < picked_pre.len() {
                        assert(picked[a] == picked_pre[a]);
                    } else {
                        assert(picked[a] == src_pre[best_rect_index as int]);
                        assert(jb != best_rect_index);
                    }
                }
                assert forall|k1: int, k2: int|
                    #![trigger picked[k1], picked[k2]]
                    0 <= k1 < k2 < picked.len() implies picked[k1] != picked[k2] by {
                    assert(picked[k1] == picked_pre[k1]);
                    if k2 < picked_pre.len() {
                        assert(picked[k2] == picked_pre[k2]);
                    } else {
                        assert(picked[k2] == src_pre[best_rect_index as int]);
                    }
                }
                assert forall|i2: int| 0 <= i2 < rects@.len() implies picked.contains(i2)
                    || rem_src.contains(i2) by {
                    if picked_pre.contains(i2) {
                        let a = choose|a: int|
                            0 <= a < picked_pre.len() && picked_pre[a] == i2;
                        assert(picked[a] == i2);
                    } else {
                        let b = choose|b: int| 0 <= b < src_pre.len() && src_pre[b] == i2;
                        if b == best_rect_index {
                            assert(picked[picked.len() - 1] == i2);
                        } else if b < best_rect_index {
                            assert(rem_src[b] == i2);
                        } else {
                            assert(rem_src[b - 1] == i2);
                        }
                    }
                }
            }
        }

        proof {
            assert forall|i: int|
                0 <= i < rects@.len() && !picked.contains(i) implies no_fit(
                self.free_list(),
                rot,
                (#[trigger] rects@[i]).width,
                rects@[i].height,
            ) by {
                assert(rem_src.contains(i));
                let b = choose|b: int| 0 <= b < rem_src.len() && rem_src[b] == i;
                assert(remaining@[b] == rects@[i]);
            }
            assert(batch_outcome(dst@, rects@, rot, self.free_list(), picked));
        }

        dst
    }

    /// The bin width.
    pub fn width(&self) -> (w: i32)
        ensures
            w == self.width_spec(),
    {
        self.bin_width
    }

    /// The bin height.
    pub fn height(&self) -> (h: i32)
        ensures
            h == self.height_spec(),
    {
        self.bin_height
    }

    /// The total area of the placed rectangles; at most the bin's area, so
    /// the bin's occupancy `used_area / (width * height)` lies in [0, 1].
    pub fn used_area(&self) -> (a: i32)
        requires
            self.wf(),
        ensures
            a == sum_areas(self.used_list()),
            0 <= a <= self.width_spec() * self.height_spec(),
    {
        let ghost used = self.used_list();
        proof {
            lemma_packed_area_bound(used, self.width_spec(), self.height_spec());
        }
        let mut used_surface_area: i32 = 0;
        let n = self.used_rectangles.len();
        let mut i: usize = 0;
        while i < n
            invariant
                self.wf(),
                used == self.used_list(),
                n == used.len(),
                i <= n,
                sum_areas(used) <= self.width_spec() * self.height_spec(),
                used_surface_area == sum_areas(used.take(i as int)),
                0 <= used_surface_area,
            decreases n - i,
        {
            let rect = self.used_rectangles[i];
            proof {
                assert(rect.width * rect.height <= self.width_spec() * self.height_spec())
                    by (nonlinear_arith)
                    requires
                        0 < rect.width <= self.width_spec(),
                        0 < rect.height <= self.height_spec(),
                ;
                lemma_sum_areas_take_succ(used, i as int);
                lemma_sum_areas_take_le(used, i + 1);
                assert(0 < rect_area(used[i as int])) by (nonlinear_arith)
                    requires
                        0 < used[i as int].width,
                        0 < used[i as int].height,
                ;
            }
            used_surface_area += rect.width * rect.height;
            i += 1;
        }
        proof {
            assert(used.take(n as int) =~= used);
        }
        used_surface_area
    }

    /// A copy of the current free rectangles.
    pub fn free_rect_list(&self) -> (v: Vec<Rect>)
        ensures
            v@ == self.free_list(),
    {
        let mut v: Vec<Rect> = Vec::new();
        let n = self.free_rectangles.len();
        let mut i: usize = 0;
        while i < n
            invariant
                n == self.free_rectangles@.len(),
                i <= n,
                v@ == self.free_rectangles@.take(i as int),
            decreases n - i,
        {
            v.push(self.free_rectangles[i]);
            proof {
                assert(self.free_rectangles@.take(i + 1).drop_last() =~= self.free_rectangles@.take(
                    i as int,
                ));
            }
            i += 1;
        }
        proof {
            assert(self.free_rectangles@.take(n as int) =~= self.free_rectangles@);
        }
        v
    }

    /// A copy of the placement history, in placement order.
    pub fn used_rect_list(&self) -> (v: Vec<Rect>)
        ensures
            v@ == self.used_list(),
    {
        let mut v: Vec<Rect> = Vec::new();
        let n = self.used_rectangles.len();
        let mut i: usize = 0;
        while i < n
            invariant
                n == self.used_rectangles@.len(),
                i <= n,
                v@ == self.used_rectangles@.take(i as int),
            decreases n - i,
        {
            v.push(self.used_rectangles[i]);
            proof {
                assert(self.used_rectangles@.take(i + 1).drop_last() =~= self.used_rectangles@.take(
                    i as int,
                ));
            }
            i += 1;
        }
        proof {
            assert(self.used_rectangles@.take(n as int) =~= self.used_rectangles@);
        }
        v
    }
}

/// No-overlap law: the placements committed by a well-formed engine are
/// pairwise disjoint.
pub proof fn lemma_used_pairwise_disjoint(p: MaxRectsBinPack)
    requires
        p.wf(),
    ensures
        pairwise_disjoint(p.used_list()),
{
}

/// Containment law: every placement of a well-formed engine lies inside
/// the bin.
pub proof fn lemma_used_in_bin(p: MaxRectsBinPack)
    requires
        p.wf(),
    ensures
        all_in_bin(p.used_list(), p.width_spec(), p.height_spec()),
{
}

/// Free-list law: no free rectangle of a well-formed engine is contained
/// in another.
pub proof fn lemma_free_no_containment(p: MaxRectsBinPack)
    requires
        p.wf(),
    ensures
        no_containment(p.free_list()),
{
}

/// Area conservation law: the placed rectangles of a well-formed engine
/// together cover at least zero and at most the bin's area, so the
/// occupancy ratio lies in [0, 1].
pub proof fn lemma_area_conservation(p: MaxRectsBinPack)
    requires
        p.wf(),
    ensures
        0 <= sum_areas(p.used_list()) <= p.width_spec() * p.height_spec(),
{
    lemma_packed_area_bound(p.used_list(), p.width_spec(), p.height_spec());
    lemma_sum_areas_ge_len(p.used_list());
}

/// The length of the overlap of the two closed intervals
/// `[i1start, i1end]` and `[i2start, i2end]`.
pub open spec fn interval_overlap(i1start: int, i1end: int, i2start: int, i2end: int) -> int {
    let lo = if i1start >= i2start {
        i1start
    } else {
        i2start
    };
    let hi = if i1end <= i2end {
        i1end
    } else {
        i2end
    };
    if hi <= lo {
        0
    } else {
        hi - lo
    }
}

/// How much of the two intervals overlaps, as used by the contact-point
/// score.
fn common_interval_length(i1start: i32, i1end: i32, i2start: i32, i2end: i32) -> (r: i32)
    requires
        0 <= i1start <= i1end,
        0 <= i2start <= i2end,
    ensures
        r == interval_overlap(i1start as int, i1end as int, i2start as int, i2end as int),
        0 <= r <= i1end - i1start,
        r <= i2end - i2start,
{
    if i1end < i2start || i2end < i1start {
        return 0;
    }
    let lo = if i1start >= i2start {
        i1start
    } else {
        i2start
    };
    let hi = if i1end <= i2end {
        i1end
    } else {
        i2end
    };
    hi - lo
}

} // verus!
