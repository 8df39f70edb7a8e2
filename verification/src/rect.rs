use vstd::prelude::*;

verus! {

/// A width/height pair without a position.
#[derive(Debug, Clone, Copy)]
pub struct RectSize {
    pub width: i32,
    pub height: i32,
}

/// An axis-aligned rectangle with integer coordinates.
///
/// A rectangle with `height == 0` doubles as the explicit "no placement"
/// sentinel of the packing engine; real placements always have positive
/// height.
#[derive(Debug, Clone, Copy, PartialEq, Eq, Structural)]
pub struct Rect {
    pub x: i32,
    pub y: i32,
    pub width: i32,
    pub height: i32,
}

/// `a` lies fully inside `b`.
pub open spec fn rect_contained_in(a: Rect, b: Rect) -> bool {
    &&& a.x >= b.x
    &&& a.y >= b.y
    &&& a.x + a.width <= b.x + b.width
    &&& a.y + a.height <= b.y + b.height
}

/// `a` and `b` have no common interior: they touch at most along edges.
pub open spec fn rects_disjoint(a: Rect, b: Rect) -> bool {
    ||| a.x + a.width <= b.x
    ||| b.x + b.width <= a.x
    ||| a.y + a.height <= b.y
    ||| b.y + b.height <= a.y
}

/// `a` and `b` overlap with positive area.
pub open spec fn rects_overlap(a: Rect, b: Rect) -> bool {
    !rects_disjoint(a, b)
}

/// Both coordinate sums of `r` can be computed in `i32` without overflow.
pub open spec fn rect_sums_fit(r: Rect) -> bool {
    &&& i32::MIN <= r.x + r.width <= i32::MAX
    &&& i32::MIN <= r.y + r.height <= i32::MAX
}

/// The shorter of the two side lengths of `r`.
pub open spec fn rect_short_side(r: Rect) -> int {
    if r.width <= r.height {
        r.width as int
    } else {
        r.height as int
    }
}

/// The longer of the two side lengths of `r`.
pub open spec fn rect_long_side(r: Rect) -> int {
    if r.width <= r.height {
        r.height as int
    } else {
        r.width as int
    }
}

/// `(rect_short_side(a), rect_long_side(a))` precedes the same pair of `b`
/// lexicographically.
pub open spec fn short_side_lt(a: Rect, b: Rect) -> bool {
    ||| rect_short_side(a) < rect_short_side(b)
    ||| (rect_short_side(a) == rect_short_side(b) && rect_long_side(a) < rect_long_side(b))
}

/// `(x, y, width, height)` of `a` precedes the same tuple of `b`
/// lexicographically.
pub open spec fn position_lt(a: Rect, b: Rect) -> bool {
    ||| a.x < b.x
    ||| (a.x == b.x && a.y < b.y)
    ||| (a.x == b.x && a.y == b.y && a.width < b.width)
    ||| (a.x == b.x && a.y == b.y && a.width == b.width && a.height < b.height)
}

/// `r` has positive area and lies inside a bin of size `w` by `h`.
pub open spec fn rect_in_bin(r: Rect, w: int, h: int) -> bool {
    &&& 0 <= r.x
    &&& 0 <= r.y
    &&& 0 < r.width
    &&& 0 < r.height
    &&& r.x + r.width <= w
    &&& r.y + r.height <= h
}

/// Every rectangle in `s` lies inside a bin of size `w` by `h`.
pub open spec fn all_in_bin(s: Seq<Rect>, w: int, h: int) -> bool {
    forall|i: int| 0 <= i < s.len() ==> rect_in_bin(#[trigger] s[i], w, h)
}

/// Every rectangle in `s` is disjoint from `r`.
pub open spec fn all_disjoint_from(s: Seq<Rect>, r: Rect) -> bool {
    forall|i: int| 0 <= i < s.len() ==> rects_disjoint(#[trigger] s[i], r)
}

/// Every rectangle of `a` is disjoint from every rectangle of `b`.
pub open spec fn cross_disjoint(a: Seq<Rect>, b: Seq<Rect>) -> bool {
    forall|i: int, j: int|
        #![trigger a[i], b[j]]
        0 <= i < a.len() && 0 <= j < b.len() ==> rects_disjoint(a[i], b[j])
}

/// No rectangle of `s` lies inside another one (the maximal-rectangle
/// free-list invariant).
pub open spec fn no_containment(s: Seq<Rect>) -> bool {
    forall|i: int, j: int|
        #![trigger s[i], s[j]]
        0 <= i < s.len() && 0 <= j < s.len() && i != j ==> !rect_contained_in(s[i], s[j])
}

/// `r` occurs somewhere in `s`.
pub open spec fn occurs_in(r: Rect, s: Seq<Rect>) -> bool {
    exists|j: int| 0 <= j < s.len() && r == #[trigger] s[j]
}

/// Every rectangle of `s` already occurs in `orig`.
pub open spec fn all_occur_in(s: Seq<Rect>, orig: Seq<Rect>) -> bool {
    forall|k: int| 0 <= k < s.len() ==> occurs_in(#[trigger] s[k], orig)
}

/// Disjointness is inherited by contained rectangles.
pub proof fn lemma_contained_disjoint(a: Rect, b: Rect, c: Rect)
    requires
        rect_contained_in(a, b),
        rects_disjoint(b, c),
    ensures
        rects_disjoint(a, c),
{
}

/// Every pair of distinct rectangles in `s` is disjoint.
pub open spec fn pairwise_disjoint(s: Seq<Rect>) -> bool {
    forall|i: int, j: int|
        #![trigger s[i], s[j]]
        0 <= i < j < s.len() ==> rects_disjoint(s[i], s[j])
}

/// Every rectangle in `s` satisfies `rect_sums_fit`.
pub open spec fn all_sums_fit(s: Seq<Rect>) -> bool {
    forall|i: int| 0 <= i < s.len() ==> rect_sums_fit(#[trigger] s[i])
}

impl Default for Rect {
    /// The all-zero rectangle, which is also the "no placement" sentinel.
    fn default() -> (r: Rect)
        ensures
            r == (Rect { x: 0, y: 0, width: 0, height: 0 }),
    {
        Rect { x: 0, y: 0, width: 0, height: 0 }
    }
}

impl Rect {
    /// Lexicographic comparison on (shorter side, longer side).
    pub fn compare_rect_short_side(&self, b: &Rect) -> (r: std::cmp::Ordering)
        ensures
            r == std::cmp::Ordering::Less <==> short_side_lt(*self, *b),
            r == std::cmp::Ordering::Greater <==> short_side_lt(*b, *self),
            r == std::cmp::Ordering::Equal <==> (rect_short_side(*self) == rect_short_side(*b)
                && rect_long_side(*self) == rect_long_side(*b)),
    {
        let smaller_side_a = if self.width <= self.height { self.width } else { self.height };
        let smaller_side_b = if b.width <= b.height { b.width } else { b.height };
        if smaller_side_a != smaller_side_b {
            if smaller_side_a < smaller_side_b {
                return std::cmp::Ordering::Less;
            } else {
                return std::cmp::Ordering::Greater;
            }
        }

        // Tie-break on the larger side
        let larger_side_a = if self.width <= self.height { self.height } else { self.width };
        let larger_side_b = if b.width <= b.height { b.height } else { b.width };
        if larger_side_a < larger_side_b {
            std::cmp::Ordering::Less
        } else if larger_side_a > larger_side_b {
            std::cmp::Ordering::Greater
        } else {
            std::cmp::Ordering::Equal
        }
    }

    /// Lexicographic comparison on (x, y, width, height), for deterministic
    /// enumeration of placements.
    pub fn node_sort_cmp(a: &Rect, b: &Rect) -> (r: std::cmp::Ordering)
        ensures
            r == std::cmp::Ordering::Less <==> position_lt(*a, *b),
            r == std::cmp::Ordering::Greater <==> position_lt(*b, *a),
            r == std::cmp::Ordering::Equal <==> (a.x == b.x && a.y == b.y && a.width == b.width
                && a.height == b.height),
    {
        if a.x != b.x {
            return if a.x < b.x {
                std::cmp::Ordering::Less
            } else {
                std::cmp::Ordering::Greater
            };
        }
        if a.y != b.y {
            return if a.y < b.y {
                std::cmp::Ordering::Less
            } else {
                std::cmp::Ordering::Greater
            };
        }
        if a.width != b.width {
            return if a.width < b.width {
                std::cmp::Ordering::Less
            } else {
                std::cmp::Ordering::Greater
            };
        }
        if a.height < b.height {
            std::cmp::Ordering::Less
        } else if a.height > b.height {
            std::cmp::Ordering::Greater
        } else {
            std::cmp::Ordering::Equal
        }
    }

    /// Containment test: `self` lies fully inside `b`.
    pub fn is_contained_in(&self, b: &Rect) -> (r: bool)
        requires
            rect_sums_fit(*self),
            rect_sums_fit(*b),
        ensures
            r == rect_contained_in(*self, *b),
    {
        self.x >= b.x && self.y >= b.y && self.x + self.width <= b.x + b.width && self.y
            + self.height <= b.y + b.height
    }
}

/// A collection of pairwise disjoint rectangles; rejects any addition that
/// would overlap a member. Used to validate packing results.
pub struct DisjointRectCollection {
    pub rects: Vec<Rect>,
}

impl DisjointRectCollection {
    /// All members are pairwise disjoint and safe to compare without
    /// overflow.
    pub open spec fn wf(self) -> bool {
        &&& pairwise_disjoint(self.rects@)
        &&& all_sums_fit(self.rects@)
    }

    pub fn new() -> (c: DisjointRectCollection)
        ensures
            c.rects@ == Seq::<Rect>::empty(),
            c.wf(),
    {
        DisjointRectCollection { rects: Vec::new() }
    }

    /// Adds `r` if it overlaps no member; degenerate (zero-area) rectangles
    /// are accepted without being stored. Returns whether `r` was accepted.
    pub fn add(&mut self, r: &Rect) -> (ret: bool)
        requires
            old(self).wf(),
            rect_sums_fit(*r),
        ensures
            final(self).wf(),
            ret == (r.width == 0 || r.height == 0 || forall|i: int|
                0 <= i < old(self).rects@.len() ==> rects_disjoint(
                    #[trigger] old(self).rects@[i],
                    *r,
                )),
            (r.width == 0 || r.height == 0) ==> final(self).rects@ == old(self).rects@,
            (r.width != 0 && r.height != 0 && ret) ==> final(self).rects@ == old(
                self,
            ).rects@.push(*r),
            !ret ==> final(self).rects@ == old(self).rects@,
    {
        // Degenerate rectangles are ignored
        if r.width == 0 || r.height == 0 {
            return true;
        }

        if !self.disjoint(r) {
            return false;
        }

        self.rects.push(*r);
        true
    }

    pub fn clear(&mut self)
        ensures
            final(self).rects@ == Seq::<Rect>::empty(),
    {
        self.rects.clear();
    }

    /// Whether `r` overlaps no member; degenerate rectangles count as
    /// disjoint from everything.
    pub fn disjoint(&self, r: &Rect) -> (ret: bool)
        requires
            forall|i: int| 0 <= i < self.rects@.len() ==> rect_sums_fit(#[trigger] self.rects@[i]),
            rect_sums_fit(*r),
        ensures
            ret == (r.width == 0 || r.height == 0 || forall|i: int|
                0 <= i < self.rects@.len() ==> rects_disjoint(#[trigger] self.rects@[i], *r)),
    {
        // Degenerate rectangles are ignored
        if r.width == 0 || r.height == 0 {
            return true;
        }

        let mut i: usize = 0;
        while i < self.rects.len()
            invariant
                i <= self.rects@.len(),
                forall|k: int|
                    0 <= k < self.rects@.len() ==> rect_sums_fit(#[trigger] self.rects@[k]),
                rect_sums_fit(*r),
                r.width != 0 && r.height != 0,
                forall|k: int| 0 <= k < i ==> rects_disjoint(#[trigger] self.rects@[k], *r),
            decreases self.rects@.len() - i,
        {
            if !disjoint(&self.rects[i], r) {
                return false;
            }
            i += 1;
        }

        true
    }
}

/// Disjointness test for two rectangles.
fn disjoint(a: &Rect, b: &Rect) -> (r: bool)
    requires
        rect_sums_fit(*a),
        rect_sums_fit(*b),
    ensures
        r == rects_disjoint(*a, *b),
{
    a.x + a.width <= b.x || b.x + b.width <= a.x || a.y + a.height <= b.y || b.y + b.height <= a.y
}

} // verus!
