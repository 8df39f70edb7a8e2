use crate::rect::{
    all_in_bin, pairwise_disjoint, rect_contained_in, rect_in_bin, rects_disjoint, Rect,
};
use vstd::prelude::*;
use vstd::set_lib::{lemma_len_subset, lemma_set_disjoint_lens};

verus! {

/// The area of `r`.
pub open spec fn rect_area(r: Rect) -> int {
    r.width * r.height
}

/// The summed areas of the rectangles of `s`.
pub open spec fn sum_areas(s: Seq<Rect>) -> int
    decreases s.len(),
{
    if s.len() == 0 {
        0
    } else {
        sum_areas(s.drop_last()) + rect_area(s.last())
    }
}

/// The unit grid cells of the axis-aligned box at `(x, y)` with extent
/// `w` by `h`, each cell named by its lower corner.
pub open spec fn box_cells(x: int, y: int, w: int, h: int) -> Set<(int, int)> {
    Set::new(|p: (int, int)| x <= p.0 < x + w && y <= p.1 < y + h)
}

/// The unit grid cells covered by `r`.
pub open spec fn rect_cells(r: Rect) -> Set<(int, int)> {
    box_cells(r.x as int, r.y as int, r.width as int, r.height as int)
}

/// The cells of a single grid column at `x == cx` spanning `h` cells up
/// from `y0`.
spec fn col_cells(cx: int, y0: int, h: int) -> Set<(int, int)> {
    Set::new(|p: (int, int)| p.0 == cx && y0 <= p.1 < y0 + h)
}

proof fn lemma_col_cells_card(cx: int, y0: int, h: int)
    requires
        0 <= h,
    ensures
        col_cells(cx, y0, h).finite(),
        col_cells(cx, y0, h).len() == h,
    decreases h,
{
    if h == 0 {
        assert(col_cells(cx, y0, 0) =~= Set::<(int, int)>::empty());
    } else {
        lemma_col_cells_card(cx, y0, h - 1);
        assert(col_cells(cx, y0, h) =~= col_cells(cx, y0, h - 1).insert((cx, y0 + h - 1)));
        assert(!col_cells(cx, y0, h - 1).contains((cx, y0 + h - 1)));
    }
}

/// A box of nonnegative extent covers exactly `w * h` cells.
pub proof fn lemma_box_cells_card(x: int, y: int, w: int, h: int)
    requires
        0 <= w,
        0 <= h,
    ensures
        box_cells(x, y, w, h).finite(),
        box_cells(x, y, w, h).len() == w * h,
    decreases w,
{
    if w == 0 {
        assert(box_cells(x, y, 0, h) =~= Set::<(int, int)>::empty());
        assert(0 * h == 0) by (nonlinear_arith);
    } else {
        lemma_box_cells_card(x, y, w - 1, h);
        lemma_col_cells_card(x + w - 1, y, h);
        assert(box_cells(x, y, w, h) =~= box_cells(x, y, w - 1, h) + col_cells(x + w - 1, y, h));
        assert(box_cells(x, y, w - 1, h).disjoint(col_cells(x + w - 1, y, h)));
        lemma_set_disjoint_lens(box_cells(x, y, w - 1, h), col_cells(x + w - 1, y, h));
        assert((w - 1) * h + h == w * h) by (nonlinear_arith);
    }
}

/// A rectangle of nonnegative extent covers exactly its area in cells.
pub proof fn lemma_rect_cells_card(r: Rect)
    requires
        r.width >= 0,
        r.height >= 0,
    ensures
        rect_cells(r).finite(),
        rect_cells(r).len() == rect_area(r),
{
    lemma_box_cells_card(r.x as int, r.y as int, r.width as int, r.height as int);
}

/// Disjoint rectangles cover disjoint cell sets.
proof fn lemma_disjoint_rect_cells(a: Rect, b: Rect)
    requires
        rects_disjoint(a, b),
    ensures
        rect_cells(a).disjoint(rect_cells(b)),
{
    assert forall|p: (int, int)| rect_cells(a).contains(p) implies !rect_cells(b).contains(
        p,
    ) by {}
}

/// A contained rectangle covers a subset of the container's cells.
proof fn lemma_rect_cells_mono(a: Rect, b: Rect)
    requires
        rect_contained_in(a, b),
    ensures
        rect_cells(a).subset_of(rect_cells(b)),
{
    assert forall|p: (int, int)| rect_cells(a).contains(p) implies rect_cells(b).contains(p) by {}
}

/// The union of the cells covered by the rectangles of `s`.
pub open spec fn seq_cells(s: Seq<Rect>) -> Set<(int, int)>
    decreases s.len(),
{
    if s.len() == 0 {
        Set::<(int, int)>::empty()
    } else {
        seq_cells(s.drop_last()).union(rect_cells(s.last()))
    }
}

pub proof fn lemma_seq_cells_disjoint_from(s: Seq<Rect>, r: Rect)
    requires
        forall|i: int| 0 <= i < s.len() ==> rects_disjoint(#[trigger] s[i], r),
    ensures
        seq_cells(s).disjoint(rect_cells(r)),
    decreases s.len(),
{
    if s.len() == 0 {
    } else {
        let init = s.drop_last();
        assert(forall|i: int| 0 <= i < init.len() ==> rects_disjoint(#[trigger] init[i], r));
        lemma_seq_cells_disjoint_from(init, r);
        lemma_disjoint_rect_cells(s.last(), r);
        assert forall|p: (int, int)| seq_cells(s).contains(p) implies !rect_cells(r).contains(
            p,
        ) by {}
    }
}

/// Concatenation covers the union of the two parts' cells.
pub proof fn lemma_seq_cells_concat(a: Seq<Rect>, b: Seq<Rect>)
    ensures
        seq_cells(a + b) == seq_cells(a).union(seq_cells(b)),
    decreases b.len(),
{
    if b.len() == 0 {
        assert(a + b =~= a);
        assert(seq_cells(a).union(seq_cells(b)) =~= seq_cells(a));
    } else {
        assert((a + b).drop_last() =~= a + b.drop_last());
        assert((a + b).last() == b.last());
        lemma_seq_cells_concat(a, b.drop_last());
        assert(seq_cells(a + b) =~= seq_cells(a).union(seq_cells(b)));
    }
}

/// Pushing a rectangle adds exactly its cells.
pub proof fn lemma_seq_cells_push(s: Seq<Rect>, r: Rect)
    ensures
        seq_cells(s.push(r)) == seq_cells(s).union(rect_cells(r)),
{
    assert(s.push(r).drop_last() =~= s);
    assert(s.push(r).last() == r);
}

/// A cell is covered exactly when some rectangle of the sequence covers
/// it.
pub proof fn lemma_seq_cells_membership(s: Seq<Rect>, p: (int, int))
    ensures
        seq_cells(s).contains(p) <==> exists|i: int|
            0 <= i < s.len() && rect_cells(#[trigger] s[i]).contains(p),
    decreases s.len(),
{
    if s.len() > 0 {
        lemma_seq_cells_membership(s.drop_last(), p);
        if seq_cells(s).contains(p) {
            if seq_cells(s.drop_last()).contains(p) {
                let i = choose|i: int|
                    0 <= i < s.drop_last().len() && rect_cells(
                        #[trigger] s.drop_last()[i],
                    ).contains(p);
                assert(rect_cells(s[i]).contains(p));
            } else {
                assert(rect_cells(s[s.len() - 1]).contains(p));
            }
        }
        if exists|i: int| 0 <= i < s.len() && rect_cells(#[trigger] s[i]).contains(p) {
            let i = choose|i: int| 0 <= i < s.len() && rect_cells(#[trigger] s[i]).contains(p);
            if i < s.len() - 1 {
                assert(rect_cells(s.drop_last()[i]).contains(p));
            }
        }
    }
}

/// Removing a rectangle that is contained in another member leaves the
/// covered cells unchanged.
pub proof fn lemma_seq_cells_remove_contained(s: Seq<Rect>, i: int, j: int)
    requires
        0 <= i < s.len(),
        0 <= j < s.len(),
        i != j,
        rect_contained_in(s[i], s[j]),
    ensures
        seq_cells(s.remove(i)) == seq_cells(s),
{
    let s2 = s.remove(i);
    lemma_rect_cells_mono(s[i], s[j]);
    assert forall|p: (int, int)| seq_cells(s2).contains(p) implies seq_cells(s).contains(p) by {
        lemma_seq_cells_membership(s2, p);
        lemma_seq_cells_membership(s, p);
        let k = choose|k: int| 0 <= k < s2.len() && rect_cells(#[trigger] s2[k]).contains(p);
        if k < i {
            assert(rect_cells(s[k]).contains(p));
        } else {
            assert(rect_cells(s[k + 1]).contains(p));
        }
    }
    assert forall|p: (int, int)| seq_cells(s).contains(p) implies seq_cells(s2).contains(p) by {
        lemma_seq_cells_membership(s2, p);
        lemma_seq_cells_membership(s, p);
        let k = choose|k: int| 0 <= k < s.len() && rect_cells(#[trigger] s[k]).contains(p);
        let jj: int = if j < i {
            j
        } else {
            j - 1
        };
        if k == i {
            assert(s2[jj] == s[j]);
            assert(rect_cells(s2[jj]).contains(p));
        } else if k < i {
            assert(rect_cells(s2[k]).contains(p));
        } else {
            assert(rect_cells(s2[k - 1]).contains(p));
        }
    }
    assert(seq_cells(s.remove(i)) =~= seq_cells(s));
}

/// For pairwise disjoint rectangles, the covered cells count exactly the
/// summed areas.
pub proof fn lemma_sum_areas_eq_cells(s: Seq<Rect>)
    requires
        pairwise_disjoint(s),
        forall|i: int| 0 <= i < s.len() ==> (#[trigger] s[i]).width >= 0 && s[i].height >= 0,
    ensures
        seq_cells(s).finite(),
        seq_cells(s).len() == sum_areas(s),
    decreases s.len(),
{
    if s.len() == 0 {
    } else {
        let init = s.drop_last();
        let last = s.last();
        assert(forall|i: int, j: int|
            #![trigger init[i], init[j]]
            0 <= i < j < init.len() ==> rects_disjoint(init[i], init[j])) by {
            assert(forall|i: int, j: int|
                #![trigger init[i], init[j]]
                0 <= i < j < init.len() ==> init[i] == s[i] && init[j] == s[j]);
        }
        lemma_sum_areas_eq_cells(init);
        lemma_rect_cells_card(last);
        assert(forall|i: int| 0 <= i < init.len() ==> rects_disjoint(#[trigger] init[i], last));
        lemma_seq_cells_disjoint_from(init, last);
        lemma_set_disjoint_lens(seq_cells(init), rect_cells(last));
        assert(seq_cells(init) + rect_cells(last) =~= seq_cells(init).union(rect_cells(last)));
    }
}

proof fn lemma_seq_cells_subset(s: Seq<Rect>, w: int, h: int)
    requires
        all_in_bin(s, w, h),
    ensures
        seq_cells(s).subset_of(box_cells(0, 0, w, h)),
    decreases s.len(),
{
    if s.len() == 0 {
    } else {
        let init = s.drop_last();
        assert(forall|i: int| 0 <= i < init.len() ==> rect_in_bin(#[trigger] init[i], w, h));
        lemma_seq_cells_subset(init, w, h);
        assert(rect_cells(s.last()).subset_of(box_cells(0, 0, w, h))) by {
            assert forall|p: (int, int)| rect_cells(s.last()).contains(p) implies box_cells(
                0,
                0,
                w,
                h,
            ).contains(p) by {}
        }
    }
}

/// Area conservation: pairwise disjoint rectangles inside a `w` by `h` bin
/// together cover at most the bin's area.
pub proof fn lemma_packed_area_bound(s: Seq<Rect>, w: int, h: int)
    requires
        pairwise_disjoint(s),
        all_in_bin(s, w, h),
        0 <= w,
        0 <= h,
    ensures
        sum_areas(s) <= w * h,
{
    lemma_sum_areas_eq_cells(s);
    lemma_seq_cells_subset(s, w, h);
    lemma_box_cells_card(0, 0, w, h);
    lemma_len_subset(seq_cells(s), box_cells(0, 0, w, h));
}

/// Each rectangle with positive sides contributes at least one unit of
/// area.
pub proof fn lemma_sum_areas_ge_len(s: Seq<Rect>)
    requires
        forall|i: int| 0 <= i < s.len() ==> (#[trigger] s[i]).width >= 1 && s[i].height >= 1,
    ensures
        sum_areas(s) >= s.len(),
    decreases s.len(),
{
    if s.len() == 0 {
    } else {
        let init = s.drop_last();
        assert(forall|i: int| 0 <= i < init.len() ==> (#[trigger] init[i]).width >= 1
            && init[i].height >= 1);
        lemma_sum_areas_ge_len(init);
        assert(rect_area(s.last()) >= 1) by (nonlinear_arith)
            requires
                s.last().width >= 1,
                s.last().height >= 1,
        ;
    }
}

/// At most `w * h` pairwise disjoint rectangles fit inside a `w` by `h`
/// bin.
pub proof fn lemma_packed_count_bound(s: Seq<Rect>, w: int, h: int)
    requires
        pairwise_disjoint(s),
        all_in_bin(s, w, h),
        0 <= w,
        0 <= h,
    ensures
        s.len() <= w * h,
{
    lemma_packed_area_bound(s, w, h);
    lemma_sum_areas_ge_len(s);
}

/// Summed areas restricted to a prefix, extended by one element.
pub proof fn lemma_sum_areas_take_succ(s: Seq<Rect>, i: int)
    requires
        0 <= i < s.len(),
    ensures
        sum_areas(s.take(i + 1)) == sum_areas(s.take(i)) + rect_area(s[i]),
{
    assert(s.take(i + 1).drop_last() =~= s.take(i));
    assert(s.take(i + 1).last() == s[i]);
}

/// Summed areas of nonnegative rectangles are nonnegative and grow along
/// prefixes.
pub proof fn lemma_sum_areas_take_le(s: Seq<Rect>, j: int)
    requires
        forall|i: int| 0 <= i < s.len() ==> (#[trigger] s[i]).width >= 0 && s[i].height >= 0,
        0 <= j <= s.len(),
    ensures
        sum_areas(s.take(j)) <= sum_areas(s),
    decreases s.len() - j,
{
    if j == s.len() {
        assert(s.take(j) =~= s);
    } else {
        lemma_sum_areas_take_succ(s, j);
        assert(rect_area(s[j]) >= 0) by (nonlinear_arith)
            requires
                s[j].width >= 0,
                s[j].height >= 0,
        ;
        lemma_sum_areas_take_le(s, j + 1);
    }
}

} // verus!
