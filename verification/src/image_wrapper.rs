use vstd::prelude::*;

verus! {

/// A loaded image: its trimmed pixel dimensions, the frame it was cut out
/// of, its raw RGBA bytes (four per pixel, row-major) and a 64-bit content
/// fingerprint computed by the loader.
pub struct ImageWrapper {
    pub name: String,
    pub width: i32,
    pub height: i32,
    pub frame_x: i32,
    pub frame_y: i32,
    pub frame_w: i32,
    pub frame_h: i32,
    pub data: Vec<u8>,
    pub hash_value: u64,
}

/// `a` and `b` have identical dimensions and identical pixel content (and
/// so equal fingerprints, which hash the dimensions and bytes).
pub open spec fn images_identical(a: ImageWrapper, b: ImageWrapper) -> bool {
    &&& a.width == b.width
    &&& a.height == b.height
    &&& a.data@ == b.data@
}

proof fn lemma_pixel_index_bound(w: int, h: int, x: int, y: int, c: int)
    requires
        0 <= x < w,
        0 <= y < h,
        0 <= c < 4,
    ensures
        0 <= (y * w + x) * 4 + c < w * h * 4,
        y * w + x < w * h,
{
    assert(0 <= y * w + x < w * h) by (nonlinear_arith)
        requires
            0 <= x < w,
            0 <= y < h,
    ;
    assert((y * w + x) * 4 + c < w * h * 4) by (nonlinear_arith)
        requires
            y * w + x < w * h,
            0 <= c < 4,
    ;
}

proof fn lemma_pixel_index_injective(w: int, x1: int, y1: int, c1: int, x2: int, y2: int, c2: int)
    requires
        0 <= x1 < w,
        0 <= x2 < w,
        0 <= c1 < 4,
        0 <= c2 < 4,
        0 <= y1,
        0 <= y2,
        (y1 * w + x1) * 4 + c1 == (y2 * w + x2) * 4 + c2,
    ensures
        x1 == x2,
        y1 == y2,
        c1 == c2,
{
    let a = y1 * w + x1;
    let b = y2 * w + x2;
    assert(c1 == c2 && a == b) by (nonlinear_arith)
        requires
            a * 4 + c1 == b * 4 + c2,
            0 <= c1 < 4,
            0 <= c2 < 4,
    ;
    assert(y1 == y2 && x1 == x2) by (nonlinear_arith)
        requires
            y1 * w + x1 == y2 * w + x2,
            0 <= x1 < w,
            0 <= x2 < w,
            0 <= y1,
            0 <= y2,
    ;
}

impl ImageWrapper {
    /// The pixel buffer holds exactly four bytes per pixel.
    pub open spec fn wf(self) -> bool {
        &&& 0 <= self.width
        &&& 0 <= self.height
        &&& self.data@.len() == self.width * self.height * 4
    }

    /// The byte of channel `c` of the pixel at `(x, y)`.
    pub open spec fn pixel(self, x: int, y: int, c: int) -> u8 {
        self.data@[(y * self.width + x) * 4 + c]
    }

    /// A fully transparent image of the given size, used as the canvas an
    /// atlas is composited onto.
    pub fn empty(width: i32, height: i32) -> (r: ImageWrapper)
        requires
            0 <= width,
            0 <= height,
            width * height * 4 <= usize::MAX,
        ensures
            r.wf(),
            r.width == width,
            r.height == height,
            r.frame_x == 0,
            r.frame_y == 0,
            r.frame_w == width,
            r.frame_h == width,
            r.hash_value == 0,
            r.name@ == Seq::<char>::empty(),
            forall|i: int| 0 <= i < r.data@.len() ==> r.data@[i] == 0,
    {
        proof {
            assert((width as int) * (height as int) * 4 == ((width as int) * (height as int)) * 4);
        }
        let count: usize = (width as usize) * (height as usize) * 4;
        let mut data: Vec<u8> = Vec::new();
        while data.len() < count
            invariant
                data@.len() <= count,
                forall|i: int| 0 <= i < data@.len() ==> data@[i] == 0,
            decreases count - data@.len(),
        {
            data.push(0);
        }
        ImageWrapper {
            name: String::new(),
            width,
            height,
            frame_x: 0,
            frame_y: 0,
            frame_w: width,
            frame_h: width,
            data,
            hash_value: 0,
        }
    }

    /// The byte of channel `channel` of the pixel at `(x, y)`.
    #[inline]
    pub fn get_pixel(&self, x: usize, y: usize, channel: usize) -> (r: u8)
        requires
            self.wf(),
            x < self.width,
            y < self.height,
            channel < 4,
        ensures
            r == self.pixel(x as int, y as int, channel as int),
    {
        proof {
            lemma_pixel_index_bound(
                self.width as int,
                self.height as int,
                x as int,
                y as int,
                channel as int,
            );
        }
        let n = self.data.len();
        proof {
            assert(self.width * self.height * 4 == self.data@.len());
        }
        let idx = (y * (self.width as usize) + x) * 4 + channel;
        self.data[idx]
    }

    /// Overwrites the byte of channel `channel` of the pixel at `(x, y)`;
    /// every other byte keeps its value.
    #[inline]
    pub fn set_pixel(&mut self, x: usize, y: usize, channel: usize, value: u8)
        requires
            old(self).wf(),
            x < old(self).width,
            y < old(self).height,
            channel < 4,
        ensures
            final(self).wf(),
            final(self).width == old(self).width,
            final(self).height == old(self).height,
            final(self).frame_x == old(self).frame_x,
            final(self).frame_y == old(self).frame_y,
            final(self).frame_w == old(self).frame_w,
            final(self).frame_h == old(self).frame_h,
            final(self).name == old(self).name,
            final(self).hash_value == old(self).hash_value,
            final(self).data@.len() == old(self).data@.len(),
            final(self).pixel(x as int, y as int, channel as int) == value,
            forall|px: int, py: int, c: int|
                0 <= px < old(self).width && 0 <= py < old(self).height && 0 <= c < 4 && !(px == x
                    && py == y && c == channel) ==> final(self).pixel(px, py, c) == old(self).pixel(
                    px,
                    py,
                    c,
                ),
    {
        proof {
            lemma_pixel_index_bound(
                self.width as int,
                self.height as int,
                x as int,
                y as int,
                channel as int,
            );
        }
        let n = self.data.len();
        proof {
            assert(self.width * self.height * 4 == self.data@.len());
        }
        let idx = (y * (self.width as usize) + x) * 4 + channel;
        self.data[idx] = value;
        proof {
            assert forall|px: int, py: int, c: int|
                0 <= px < old(self).width && 0 <= py < old(self).height && 0 <= c < 4 && !(px == x
                    && py == y && c == channel) implies self.pixel(px, py, c) == old(self).pixel(
                px,
                py,
                c,
            ) by {
                lemma_pixel_index_bound(self.width as int, self.height as int, px, py, c);
                if (py * self.width + px) * 4 + c == idx {
                    lemma_pixel_index_injective(
                        self.width as int,
                        px,
                        py,
                        c,
                        x as int,
                        y as int,
                        channel as int,
                    );
                }
            }
        }
    }

    /// Copies `src` unrotated so that its pixel `(0, 0)` lands at
    /// `(tx, ty)`; pixels outside the target region keep their values.
    #[verifier::rlimit(60)]
    pub fn copy_pixels(&mut self, src: &ImageWrapper, tx: i32, ty: i32)
        requires
            old(self).wf(),
            src.wf(),
            0 <= tx,
            0 <= ty,
            tx + src.width <= old(self).width,
            ty + src.height <= old(self).height,
        ensures
            final(self).wf(),
            final(self).width == old(self).width,
            final(self).height == old(self).height,
            final(self).name == old(self).name,
            final(self).hash_value == old(self).hash_value,
            forall|x: int, y: int, c: int|
                0 <= x < src.width && 0 <= y < src.height && 0 <= c < 4 ==> final(self).pixel(
                    tx + x,
                    ty + y,
                    c,
                ) == src.pixel(x, y, c),
            forall|px: int, py: int, c: int|
                0 <= px < old(self).width && 0 <= py < old(self).height && 0 <= c < 4 && !(tx <= px
                    < tx + src.width && ty <= py < ty + src.height) ==> final(self).pixel(px, py, c)
                    == old(self).pixel(px, py, c),
    {
        let mut y: i32 = 0;
        while y < src.height
            invariant
                self.wf(),
                src.wf(),
                0 <= y <= src.height,
                0 <= tx,
                0 <= ty,
                tx + src.width <= self.width,
                ty + src.height <= self.height,
                self.width == old(self).width,
                self.height == old(self).height,
                self.name == old(self).name,
                self.hash_value == old(self).hash_value,
                forall|x2: int, y2: int, c: int|
                    0 <= x2 < src.width && 0 <= y2 < y && 0 <= c < 4 ==> self.pixel(
                        tx + x2,
                        ty + y2,
                        c,
                    ) == src.pixel(x2, y2, c),
                forall|px: int, py: int, c: int|
                    0 <= px < self.width && 0 <= py < self.height && 0 <= c < 4 && !(tx <= px < tx
                        + src.width && ty <= py < ty + y) ==> self.pixel(px, py, c) == old(
                        self,
                    ).pixel(px, py, c),
            decreases src.height - y,
        {
            let mut x: i32 = 0;
            while x < src.width
                invariant
                    self.wf(),
                    src.wf(),
                    0 <= y < src.height,
                    0 <= x <= src.width,
                    0 <= tx,
                    0 <= ty,
                    tx + src.width <= self.width,
                    ty + src.height <= self.height,
                    self.width == old(self).width,
                    self.height == old(self).height,
                    self.name == old(self).name,
                    self.hash_value == old(self).hash_value,
                    forall|x2: int, y2: int, c: int|
                        0 <= x2 < src.width && 0 <= y2 < y && 0 <= c < 4 ==> self.pixel(
                            tx + x2,
                            ty + y2,
                            c,
                        ) == src.pixel(x2, y2, c),
                    forall|x2: int, c: int|
                        0 <= x2 < x && 0 <= c < 4 ==> self.pixel(tx + x2, ty + y, c) == src.pixel(
                            x2,
                            y as int,
                            c,
                        ),
                    forall|px: int, py: int, c: int|
                        0 <= px < self.width && 0 <= py < self.height && 0 <= c < 4 && !(tx <= px
                            < tx + src.width && ty <= py < ty + y) && !(tx <= px < tx + x && py
                            == ty + y) ==> self.pixel(px, py, c) == old(self).pixel(px, py, c),
                decreases src.width - x,
            {
                let mut channel: usize = 0;
                while channel < 4
                    invariant
                        self.wf(),
                        src.wf(),
                        0 <= y < src.height,
                        0 <= x < src.width,
                        channel <= 4,
                        0 <= tx,
                        0 <= ty,
                        tx + src.width <= self.width,
                        ty + src.height <= self.height,
                        self.width == old(self).width,
                        self.height == old(self).height,
                        self.name == old(self).name,
                        self.hash_value == old(self).hash_value,
                        forall|x2: int, y2: int, c: int|
                            0 <= x2 < src.width && 0 <= y2 < y && 0 <= c < 4 ==> self.pixel(
                                tx + x2,
                                ty + y2,
                                c,
                            ) == src.pixel(x2, y2, c),
                        forall|x2: int, c: int|
                            0 <= x2 < x && 0 <= c < 4 ==> self.pixel(tx + x2, ty + y, c)
                                == src.pixel(x2, y as int, c),
                        forall|c: int|
                            0 <= c < channel ==> self.pixel(tx + x, ty + y, c) == src.pixel(
                                x as int,
                                y as int,
                                c,
                            ),
                        forall|px: int, py: int, c: int|
                            0 <= px < self.width && 0 <= py < self.height && 0 <= c < 4 && !(tx
                                <= px < tx + src.width && ty <= py < ty + y) && !(tx <= px < tx + x
                                && py == ty + y) && !(px == tx + x && py == ty + y && c < channel)
                                ==> self.pixel(px, py, c) == old(self).pixel(px, py, c),
                    decreases 4 - channel,
                {
                    let v = src.get_pixel(x as usize, y as usize, channel);
                    self.set_pixel((tx + x) as usize, (ty + y) as usize, channel, v);
                    channel += 1;
                }
                x += 1;
            }
            y += 1;
        }
    }

    /// Copies `src` rotated 90 degrees clockwise so that the rotated
    /// image's corner lands at `(tx, ty)`: target pixel `(tx + x, ty + y)`
    /// takes source pixel `(y, src.height - 1 - x)`. Pixels outside the
    /// target region keep their values.
    #[verifier::rlimit(60)]
    pub fn copy_pixels_rot(&mut self, src: &ImageWrapper, tx: i32, ty: i32)
        requires
            old(self).wf(),
            src.wf(),
            0 <= tx,
            0 <= ty,
            tx + src.height <= old(self).width,
            ty + src.width <= old(self).height,
        ensures
            final(self).wf(),
            final(self).width == old(self).width,
            final(self).height == old(self).height,
            final(self).name == old(self).name,
            final(self).hash_value == old(self).hash_value,
            forall|px: int, py: int, c: int|
                tx <= px < tx + src.height && ty <= py < ty + src.width && 0 <= c < 4
                    ==> final(self).pixel(px, py, c) == src.pixel(
                    py - ty,
                    src.height - 1 - (px - tx),
                    c,
                ),
            forall|px: int, py: int, c: int|
                0 <= px < old(self).width && 0 <= py < old(self).height && 0 <= c < 4 && !(tx <= px
                    < tx + src.height && ty <= py < ty + src.width) ==> final(self).pixel(px, py, c)
                    == old(self).pixel(px, py, c),
    {
        let r = src.height - 1;
        let mut y: i32 = 0;
        while y < src.width
            invariant
                self.wf(),
                src.wf(),
                r == src.height - 1,
                0 <= y <= src.width,
                0 <= tx,
                0 <= ty,
                tx + src.height <= self.width,
                ty + src.width <= self.height,
                self.width == old(self).width,
                self.height == old(self).height,
                self.name == old(self).name,
                self.hash_value == old(self).hash_value,
                forall|px: int, py: int, c: int|
                    tx <= px < tx + src.height && ty <= py < ty + y && 0 <= c < 4 ==> self.pixel(
                        px,
                        py,
                        c,
                    ) == src.pixel(py - ty, src.height - 1 - (px - tx), c),
                forall|px: int, py: int, c: int|
                    0 <= px < self.width && 0 <= py < self.height && 0 <= c < 4 && !(tx <= px < tx
                        + src.height && ty <= py < ty + y) ==> self.pixel(px, py, c) == old(
                        self,
                    ).pixel(px, py, c),
            decreases src.width - y,
        {
            let mut x: i32 = 0;
            while x < src.height
                invariant
                    self.wf(),
                    src.wf(),
                    r == src.height - 1,
                    0 <= y < src.width,
                    0 <= x <= src.height,
                    0 <= tx,
                    0 <= ty,
                    tx + src.height <= self.width,
                    ty + src.width <= self.height,
                    self.width == old(self).width,
                    self.height == old(self).height,
                    self.name == old(self).name,
                    self.hash_value == old(self).hash_value,
                    forall|px: int, py: int, c: int|
                        tx <= px < tx + src.height && ty <= py < ty + y && 0 <= c < 4
                            ==> self.pixel(px, py, c) == src.pixel(
                            py - ty,
                            src.height - 1 - (px - tx),
                            c,
                        ),
                    forall|px: int, py: int, c: int|
                        tx <= px < tx + x && py == ty + y && 0 <= c < 4 ==> self.pixel(px, py, c)
                            == src.pixel(y as int, src.height - 1 - (px - tx), c),
                    forall|px: int, py: int, c: int|
                        0 <= px < self.width && 0 <= py < self.height && 0 <= c < 4 && !(tx <= px
                            < tx + src.height && ty <= py < ty + y) && !(tx <= px < tx + x && py
                            == ty + y) ==> self.pixel(px, py, c) == old(self).pixel(px, py, c),
                decreases src.height - x,
            {
                let mut channel: usize = 0;
                while channel < 4
                    invariant
                        self.wf(),
                        src.wf(),
                        r == src.height - 1,
                        0 <= y < src.width,
                        0 <= x < src.height,
                        channel <= 4,
                        0 <= tx,
                        0 <= ty,
                        tx + src.height <= self.width,
                        ty + src.width <= self.height,
                        self.width == old(self).width,
                        self.height == old(self).height,
                        self.name == old(self).name,
                        self.hash_value == old(self).hash_value,
                        forall|px: int, py: int, c: int|
                            tx <= px < tx + src.height && ty <= py < ty + y && 0 <= c < 4
                                ==> self.pixel(px, py, c) == src.pixel(
                                py - ty,
                                src.height - 1 - (px - tx),
                                c,
                            ),
                        forall|px: int, py: int, c: int|
                            tx <= px < tx + x && py == ty + y && 0 <= c < 4 ==> self.pixel(
                                px,
                                py,
                                c,
                            ) == src.pixel(y as int, src.height - 1 - (px - tx), c),
                        forall|px: int, py: int, c: int|
                            px == tx + x && py == ty + y && 0 <= c < channel ==> self.pixel(
                                px,
                                py,
                                c,
                            ) == src.pixel(y as int, src.height - 1 - x, c),
                        forall|px: int, py: int, c: int|
                            0 <= px < self.width && 0 <= py < self.height && 0 <= c < 4 && !(tx
                                <= px < tx + src.height && ty <= py < ty + y) && !(tx <= px < tx
                                + x && py == ty + y) && !(px == tx + x && py == ty + y && c
                                < channel) ==> self.pixel(px, py, c) == old(self).pixel(px, py, c),
                    decreases 4 - channel,
                {
                    let v = src.get_pixel(y as usize, (r - x) as usize, channel);
                    self.set_pixel((tx + x) as usize, (ty + y) as usize, channel, v);
                    channel += 1;
                }
                x += 1;
            }
            y += 1;
        }
    }
}

impl PartialEq for ImageWrapper {
    /// Content equality: same trimmed dimensions and same pixel bytes; the
    /// name and the cached fingerprint do not take part.
    fn eq(&self, other: &Self) -> (r: bool) {
        if self.width == other.width && self.height == other.height {
            if self.data.len() != other.data.len() {
                return false;
            }
            let n = self.data.len();
            let mut i: usize = 0;
            while i < n
                invariant
                    n == self.data@.len(),
                    n == other.data@.len(),
                    i <= n,
                    forall|k: int| 0 <= k < i ==> self.data@[k] == other.data@[k],
                decreases n - i,
            {
                if self.data[i] != other.data[i] {
                    return false;
                }
                i += 1;
            }
            proof {
                assert(self.data@ =~= other.data@);
            }
            return true;
        }
        false
    }
}

impl Eq for ImageWrapper {

}

impl vstd::std_specs::cmp::PartialEqSpecImpl for ImageWrapper {
    open spec fn obeys_eq_spec() -> bool {
        true
    }

    open spec fn eq_spec(&self, other: &ImageWrapper) -> bool {
        self.width == other.width && self.height == other.height && self.data@ == other.data@
    }
}

} // verus!
