//! RGBA8 images, texel rectangles, and moving rectangles between buffers.

use vstd::prelude::*;

verus! {

/// A rectangle of texels: columns `x0 .. x1`, rows `y0 .. y1`.
#[derive(Clone, Copy, PartialEq, Eq, Structural, Debug)]
pub struct TexRect {
    pub x0: u32,
    pub y0: u32,
    pub x1: u32,
    pub y1: u32,
}

pub open spec fn min_u32(a: u32, b: u32) -> u32 {
    if a < b {
        a
    } else {
        b
    }
}

pub open spec fn max_u32(a: u32, b: u32) -> u32 {
    if a < b {
        b
    } else {
        a
    }
}

impl TexRect {
    pub open spec fn wf(self) -> bool {
        self.x0 <= self.x1 && self.y0 <= self.y1
    }

    /// The rectangle lies in an image of `w` by `h` texels.
    pub open spec fn within(self, w: int, h: int) -> bool {
        &&& self.wf()
        &&& self.x1 <= w
        &&& self.y1 <= h
    }

    pub open spec fn has(self, x: int, y: int) -> bool {
        self.x0 <= x < self.x1 && self.y0 <= y < self.y1
    }

    pub open spec fn width_spec(self) -> int {
        self.x1 - self.x0
    }

    pub open spec fn height_spec(self) -> int {
        self.y1 - self.y0
    }

    pub open spec fn union_spec(self, other: TexRect) -> TexRect {
        TexRect {
            x0: min_u32(self.x0, other.x0),
            y0: min_u32(self.y0, other.y0),
            x1: max_u32(self.x1, other.x1),
            y1: max_u32(self.y1, other.y1),
        }
    }

    pub open spec fn expanded_spec(self, pad: u32, size: u32) -> TexRect {
        TexRect {
            x0: if self.x0 < pad {
                0
            } else {
                (self.x0 - pad) as u32
            },
            y0: if self.y0 < pad {
                0
            } else {
                (self.y0 - pad) as u32
            },
            x1: if self.x1 + pad > size {
                size
            } else {
                (self.x1 + pad) as u32
            },
            y1: if self.y1 + pad > size {
                size
            } else {
                (self.y1 + pad) as u32
            },
        }
    }

    pub fn width(&self) -> (w: u32)
        requires
            self.wf(),
        ensures
            w == self.width_spec(),
    {
        self.x1 - self.x0
    }

    pub fn height(&self) -> (h: u32)
        requires
            self.wf(),
        ensures
            h == self.height_spec(),
    {
        self.y1 - self.y0
    }

    /// The box from `(x0, y0)` to `(x1, y1)`, cut at the edge of a square image; `None` where
    /// nothing is left of it.
    pub fn clipped(x0: u32, y0: u32, x1: u32, y1: u32, size: u32) -> (r: Option<TexRect>)
        ensures
            r is Some <==> x0 < min_u32(x1, size) && y0 < min_u32(y1, size),
            r matches Some(t) ==> t == (TexRect {
                x0,
                y0,
                x1: min_u32(x1, size),
                y1: min_u32(y1, size),
            }) && t.within(size as int, size as int),
    {
        let x1: u32 = if x1 <= size {
            x1
        } else {
            size
        };
        let y1: u32 = if y1 <= size {
            y1
        } else {
            size
        };
        if x1 > x0 && y1 > y0 {
            Some(TexRect { x0, y0, x1, y1 })
        } else {
            None
        }
    }

    pub fn contains(&self, x: u32, y: u32) -> (b: bool)
        ensures
            b == self.has(x as int, y as int),
    {
        self.x0 <= x && x < self.x1 && self.y0 <= y && y < self.y1
    }

    /// The smallest rectangle around both.
    pub fn union(&self, other: TexRect) -> (r: TexRect)
        ensures
            r == self.union_spec(other),
    {
        TexRect {
            x0: if self.x0 < other.x0 {
                self.x0
            } else {
                other.x0
            },
            y0: if self.y0 < other.y0 {
                self.y0
            } else {
                other.y0
            },
            x1: if self.x1 < other.x1 {
                other.x1
            } else {
                self.x1
            },
            y1: if self.y1 < other.y1 {
                other.y1
            } else {
                self.y1
            },
        }
    }

    /// The rectangle grown by `pad` on every side, cut at the edges of a `size` by `size`
    /// image.
    pub fn expanded(&self, pad: u32, size: u32) -> (r: TexRect)
        ensures
            r == self.expanded_spec(pad, size),
    {
        TexRect {
            x0: self.x0.saturating_sub(pad),
            y0: self.y0.saturating_sub(pad),
            x1: cut(self.x1, pad, size),
            y1: cut(self.y1, pad, size),
        }
    }
}

fn cut(edge: u32, pad: u32, size: u32) -> (r: u32)
    ensures
        r == if edge + pad > size {
            size
        } else {
            (edge + pad) as u32
        },
{
    let far: u64 = edge as u64 + pad as u64;
    if far > size as u64 {
        size
    } else {
        far as u32
    }
}

/// The union with a rectangle that may not be there yet.
pub open spec fn grown_spec(prev: Option<TexRect>, r: TexRect) -> TexRect {
    match prev {
        Some(p) => p.union_spec(r),
        None => r,
    }
}

/// Grows a region that may not be there yet by one more rectangle.
pub fn grown(prev: Option<TexRect>, r: TexRect) -> (out: TexRect)
    ensures
        out == grown_spec(prev, r),
{
    match prev {
        Some(p) => p.union(r),
        None => r,
    }
}

/// An RGBA8 image, row-major.
#[derive(Clone, Debug)]
pub struct PaintTexture {
    pub width: u32,
    pub height: u32,
    pub pixels: Vec<u8>,
}

/// Channel `c` of the texel at `(x, y)` of an image `w` texels wide.
pub open spec fn image_at(px: Seq<u8>, w: int, x: int, y: int, c: int) -> u8 {
    px[(y * w + x) * 4 + c]
}

/// Channel `c` of the texel at image position `(x, y)` in a buffer packed from `rect`.
pub open spec fn region_at(px: Seq<u8>, rect: TexRect, x: int, y: int, c: int) -> u8 {
    image_at(px, rect.width_spec(), x - rect.x0, y - rect.y0, c)
}

/// `px` holds an RGBA8 image of `w` by `h` texels.
pub open spec fn is_image(px: Seq<u8>, w: int, h: int) -> bool {
    px.len() == w * h * 4
}

impl PaintTexture {
    pub open spec fn wf(&self) -> bool {
        is_image(self.pixels@, self.width as int, self.height as int)
    }

    /// An image filled with one colour.
    pub fn new(width: u32, height: u32, rgba: [u8; 4]) -> (tex: PaintTexture)
        requires
            width * height * 4 <= u32::MAX,
        ensures
            tex.wf(),
            tex.width == width,
            tex.height == height,
            forall|i: int| 0 <= i < tex.pixels.len() ==> #[trigger] tex.pixels@[i] == rgba[i % 4],
    {
        let n: u32 = width * height * 4;
        let mut pixels: Vec<u8> = Vec::new();
        let mut i: u32 = 0;
        while i < n
            invariant
                i <= n,
                pixels.len() == i,
                forall|k: int| 0 <= k < i ==> #[trigger] pixels@[k] == rgba[k % 4],
            decreases n - i,
        {
            pixels.push(rgba[(i % 4) as usize]);
            i += 1;
        }
        PaintTexture { width, height, pixels }
    }

    /// A copy with the same contents.
    pub fn copied(&self) -> (tex: PaintTexture)
        ensures
            tex.width == self.width,
            tex.height == self.height,
            tex.pixels@ == self.pixels@,
    {
        PaintTexture { width: self.width, height: self.height, pixels: copy_bytes(&self.pixels) }
    }
}

/// A copy of a byte buffer.
pub fn copy_bytes(v: &Vec<u8>) -> (out: Vec<u8>)
    ensures
        out@ == v@,
{
    let mut out: Vec<u8> = Vec::new();
    let mut i: usize = 0;
    while i < v.len()
        invariant
            i <= v.len(),
            out.len() == i,
            forall|k: int| 0 <= k < i ==> #[trigger] out@[k] == v@[k],
        decreases v.len() - i,
    {
        out.push(v[i]);
        i += 1;
    }
    assert(out@ =~= v@);
    out
}

/// Texels of an earlier row come first.
pub proof fn lemma_row_order(a: int, p: int, b: int, q: int, w: int)
    requires
        0 <= p < w,
        0 <= q,
        a < b,
    ensures
        a * w + p < b * w + q,
{
    assert(a * w + w <= b * w) by (nonlinear_arith)
        requires
            a < b,
            0 < w,
    ;
}

/// A texel of the image lies inside its buffer.
pub proof fn lemma_in_image(x: int, y: int, w: int, h: int)
    requires
        0 <= x < w,
        0 <= y < h,
    ensures
        0 <= (y * w + x) * 4,
        (y * w + x) * 4 + 4 <= w * h * 4,
{
    assert(0 <= y * w) by (nonlinear_arith)
        requires
            0 <= y,
            0 < w,
    ;
    assert(y * w + w <= w * h) by (nonlinear_arith)
        requires
            y < h,
            0 < w,
    ;
}

/// Different texels occupy different bytes.
pub proof fn lemma_texel_apart(x: int, y: int, u: int, v: int, w: int)
    requires
        0 <= x < w,
        0 <= u < w,
        (x, y) != (u, v),
    ensures
        y * w + x != v * w + u,
{
    if y < v {
        lemma_row_order(y, x, v, u, w);
    } else if v < y {
        lemma_row_order(v, u, y, x, w);
    }
}

/// `out` holds the texels of `rect`, packed row by row.
pub open spec fn is_region_of(px: Seq<u8>, w: int, rect: TexRect, out: Seq<u8>) -> bool {
    &&& is_image(out, rect.width_spec(), rect.height_spec())
    &&& forall|x: int, y: int, c: int|
        rect.has(x, y) && 0 <= c < 4 ==> #[trigger] region_at(out, rect, x, y, c) == image_at(
            px,
            w,
            x,
            y,
            c,
        )
}

/// `after` is `before` with the texels of `proc` outside `upload` taken from a packed copy
/// of `proc`.
pub open spec fn is_restored(
    before: Seq<u8>,
    snapshot: Seq<u8>,
    w: int,
    proc: TexRect,
    upload: TexRect,
    after: Seq<u8>,
) -> bool {
    &&& after.len() == before.len()
    &&& forall|x: int, y: int, c: int|
        0 <= x < w && 0 <= y && (y * w + x) * 4 + c < before.len() && 0 <= c < 4
            ==> #[trigger] image_at(after, w, x, y, c) == if proc.has(x, y) && !upload.has(x, y) {
            region_at(snapshot, proc, x, y, c)
        } else {
            image_at(before, w, x, y, c)
        }
}

/// The texels of `rect`, packed row by row.
pub fn copy_region(buf: &Vec<u8>, width: u32, rect: TexRect) -> (out: Vec<u8>)
    requires
        exists|h: int| #[trigger] is_image(buf@, width as int, h) && rect.within(width as int, h),
    ensures
        is_region_of(buf@, width as int, rect, out@),
{
    let ghost h: int = choose|h: int| #[trigger]
        is_image(buf@, width as int, h) && rect.within(width as int, h);
    let ghost w: int = width as int;
    let ghost rw: int = rect.width_spec();
    let wide: usize = width as usize;
    let mut out: Vec<u8> = Vec::new();
    let mut y: u32 = rect.y0;
    while y < rect.y1
        invariant
            is_image(buf@, w, h),
            rect.within(w, h),
            w == width == wide,
            rw == rect.width_spec(),
            rect.y0 <= y <= rect.y1,
            out.len() == (y - rect.y0) * rw * 4,
            forall|u: int, v: int, c: int|
                rect.has(u, v) && v < y && 0 <= c < 4 ==> #[trigger] region_at(
                    out@,
                    rect,
                    u,
                    v,
                    c,
                ) == image_at(buf@, w, u, v, c),
        decreases rect.y1 - y,
    {
        let mut x: u32 = rect.x0;
        proof {
            assert((y - rect.y0) * rw * 4 == ((y - rect.y0) * rw + (x - rect.x0)) * 4);
        }
        while x < rect.x1
            invariant
                is_image(buf@, w, h),
                rect.within(w, h),
                w == width == wide,
                rw == rect.width_spec(),
                rect.y0 <= y < rect.y1,
                rect.x0 <= x <= rect.x1,
                out.len() == ((y - rect.y0) * rw + (x - rect.x0)) * 4,
                forall|u: int, v: int, c: int|
                    rect.has(u, v) && (v < y || (v == y && u < x)) && 0 <= c < 4
                        ==> #[trigger] region_at(out@, rect, u, v, c) == image_at(buf@, w, u, v, c),
            decreases rect.x1 - x,
        {
            proof {
                lemma_in_image(x as int, y as int, w, h);
                assert(0 <= y * w <= buf.len()) by {
                    assert(0 <= y * w) by (nonlinear_arith)
                        requires
                            0 <= y,
                            0 <= w,
                    ;
                }
            }
            let s: usize = (y as usize * wide + x as usize) * 4;
            let ghost before = out@;
            out.push(buf[s]);
            out.push(buf[s + 1]);
            out.push(buf[s + 2]);
            out.push(buf[s + 3]);
            proof {
                assert forall|u: int, v: int, c: int|
                    rect.has(u, v) && (v < y || (v == y && u < x + 1)) && 0 <= c < 4 implies
                    #[trigger] region_at(out@, rect, u, v, c) == image_at(buf@, w, u, v, c) by {
                    let p = u - rect.x0;
                    let q = x - rect.x0;
                    if v < y {
                        lemma_row_order(v - rect.y0, p, y - rect.y0, q, rw);
                        assert(0 <= (v - rect.y0) * rw) by (nonlinear_arith)
                            requires
                                0 <= v - rect.y0,
                                0 < rw,
                        ;
                        assert(region_at(out@, rect, u, v, c) == region_at(before, rect, u, v, c));
                    } else if u < x {
                        assert(0 <= (v - rect.y0) * rw) by (nonlinear_arith)
                            requires
                                0 <= v - rect.y0,
                                0 < rw,
                        ;
                        assert(region_at(out@, rect, u, v, c) == region_at(before, rect, u, v, c));
                    }
                }
            }
            x += 1;
        }
        proof {
            assert(((y - rect.y0) * rw + rw) * 4 == (y + 1 - rect.y0) * rw * 4)
                by (nonlinear_arith);
        }
        y += 1;
    }
    proof {
        assert((rect.y1 - rect.y0) * rw * 4 == rw * rect.height_spec() * 4) by (nonlinear_arith)
            requires
                rect.height_spec() == rect.y1 - rect.y0,
        ;
    }
    out
}

/// Puts the texels of `proc` that are not in `upload` back from a copy of `proc` taken
/// earlier.
pub fn restore_margin(
    buf: &mut Vec<u8>,
    snapshot: &Vec<u8>,
    width: u32,
    proc: TexRect,
    upload: TexRect,
)
    requires
        exists|h: int| #[trigger]
            is_image(old(buf)@, width as int, h) && proc.within(width as int, h),
        is_image(snapshot@, proc.width_spec(), proc.height_spec()),
    ensures
        is_restored(old(buf)@, snapshot@, width as int, proc, upload, final(buf)@),
{
    let ghost h: int = choose|h: int| #[trigger]
        is_image(buf@, width as int, h) && proc.within(width as int, h);
    let ghost w: int = width as int;
    let ghost pw: int = proc.width_spec();
    let ghost ph: int = proc.height_spec();
    let ghost start = buf@;
    let wide: usize = width as usize;
    let row: usize = proc.width() as usize;
    let mut y: u32 = proc.y0;
    while y < proc.y1
        invariant
            is_image(buf@, w, h),
            is_image(start, w, h),
            is_image(snapshot@, pw, ph),
            proc.within(w, h),
            w == width == wide,
            pw == proc.width_spec() == row,
            ph == proc.height_spec(),
            proc.y0 <= y <= proc.y1,
            forall|u: int, v: int, c: int|
                0 <= u < w && 0 <= v < h && 0 <= c < 4 ==> #[trigger] image_at(buf@, w, u, v, c)
                    == if v < y && proc.has(u, v) && !upload.has(u, v) {
                    region_at(snapshot@, proc, u, v, c)
                } else {
                    image_at(start, w, u, v, c)
                },
        decreases proc.y1 - y,
    {
        let mut x: u32 = proc.x0;
        while x < proc.x1
            invariant
                is_image(buf@, w, h),
                is_image(start, w, h),
                is_image(snapshot@, pw, ph),
                proc.within(w, h),
                w == width == wide,
                pw == proc.width_spec() == row,
                ph == proc.height_spec(),
                proc.y0 <= y < proc.y1,
                proc.x0 <= x <= proc.x1,
                forall|u: int, v: int, c: int|
                    0 <= u < w && 0 <= v < h && 0 <= c < 4 ==> #[trigger] image_at(
                        buf@,
                        w,
                        u,
                        v,
                        c,
                    ) == if (v < y || (v == y && u < x)) && proc.has(u, v) && !upload.has(u, v) {
                        region_at(snapshot@, proc, u, v, c)
                    } else {
                        image_at(start, w, u, v, c)
                    },
            decreases proc.x1 - x,
        {
            if !upload.contains(x, y) {
                proof {
                    lemma_in_image(x as int, y as int, w, h);
                    lemma_in_image(x - proc.x0, y - proc.y0, pw, ph);
                    assert(0 <= y * w) by (nonlinear_arith)
                        requires
                            0 <= y,
                            0 <= w,
                    ;
                    assert(0 <= (y - proc.y0) * pw) by (nonlinear_arith)
                        requires
                            0 <= y - proc.y0,
                            0 <= pw,
                    ;
                    assert(y * w <= buf.len());
                    assert((y - proc.y0) * pw <= snapshot.len());
                }
                let d: usize = (y as usize * wide + x as usize) * 4;
                let s: usize = ((y - proc.y0) as usize * row + (x - proc.x0) as usize) * 4;
                let ghost before = buf@;
                buf.set(d, snapshot[s]);
                buf.set(d + 1, snapshot[s + 1]);
                buf.set(d + 2, snapshot[s + 2]);
                buf.set(d + 3, snapshot[s + 3]);
                proof {
                    assert forall|u: int, v: int, c: int|
                        0 <= u < w && 0 <= v < h && 0 <= c < 4 implies #[trigger] image_at(
                        buf@,
                        w,
                        u,
                        v,
                        c,
                    ) == if (v < y || (v == y && u < x + 1)) && proc.has(u, v) && !upload.has(
                        u,
                        v,
                    ) {
                        region_at(snapshot@, proc, u, v, c)
                    } else {
                        image_at(start, w, u, v, c)
                    } by {
                        lemma_in_image(u, v, w, h);
                        if (u, v) != (x as int, y as int) {
                            lemma_texel_apart(u, v, x as int, y as int, w);
                            assert(image_at(buf@, w, u, v, c) == image_at(before, w, u, v, c));
                        }
                    }
                }
            }
            x += 1;
        }
        y += 1;
    }
    proof {
        assert forall|x: int, y: int, c: int|
            0 <= x < w && 0 <= y && (y * w + x) * 4 + c < start.len() && 0 <= c
                < 4 implies #[trigger] image_at(buf@, w, x, y, c) == if proc.has(x, y)
            && !upload.has(x, y) {
            region_at(snapshot@, proc, x, y, c)
        } else {
            image_at(start, w, x, y, c)
        } by {
            if y >= h {
                assert(y * w >= w * h) by (nonlinear_arith)
                    requires
                        y >= h,
                        0 <= w,
                ;
            }
        }
    }
}

/// Writes a packed rectangle back into the image.
pub fn paste_region(buf: &mut Vec<u8>, packed: &Vec<u8>, width: u32, rect: TexRect)
    requires
        exists|h: int| #[trigger]
            is_image(old(buf)@, width as int, h) && rect.within(width as int, h),
        is_image(packed@, rect.width_spec(), rect.height_spec()),
    ensures
        final(buf).len() == old(buf).len(),
        forall|x: int, y: int, c: int|
            0 <= x < width && 0 <= y && (y * width + x) * 4 + c < old(buf).len() && 0 <= c < 4
                ==> #[trigger] image_at(final(buf)@, width as int, x, y, c) == if rect.has(x, y) {
                region_at(packed@, rect, x, y, c)
            } else {
                image_at(old(buf)@, width as int, x, y, c)
            },
{
    restore_margin(buf, packed, width, rect, TexRect { x0: 0, y0: 0, x1: 0, y1: 0 });
}

/// Pasting a copied rectangle back changes nothing.
pub proof fn law_paste_undoes_copy(
    px: Seq<u8>,
    w: int,
    h: int,
    rect: TexRect,
    packed: Seq<u8>,
    after: Seq<u8>,
)
    requires
        0 < w,
        is_image(px, w, h),
        rect.within(w, h),
        is_region_of(px, w, rect, packed),
        is_restored(px, packed, w, rect, (TexRect { x0: 0, y0: 0, x1: 0, y1: 0 }), after),
    ensures
        after == px,
{
    assert forall|i: int| 0 <= i < px.len() implies after[i] == px[i] by {
        let (x, y, c) = lemma_byte_position(i, w);
        assert(image_at(after, w, x, y, c) == if rect.has(x, y) {
            region_at(packed, rect, x, y, c)
        } else {
            image_at(px, w, x, y, c)
        });
    }
    assert(after =~= px);
}

/// The texel and channel that byte `i` of an image belongs to.
pub(crate) proof fn lemma_byte_position(i: int, w: int) -> (p: (int, int, int))
    requires
        0 <= i,
        0 < w,
    ensures
        0 <= p.0 < w,
        0 <= p.1,
        0 <= p.2 < 4,
        (p.1 * w + p.0) * 4 + p.2 == i,
{
    let t = i / 4;
    vstd::arithmetic::div_mod::lemma_fundamental_div_mod(t, w);
    vstd::arithmetic::div_mod::lemma_mod_bound(t, w);
    vstd::arithmetic::div_mod::lemma_div_pos_is_pos(t, w);
    assert(t / w * w == w * (t / w)) by (nonlinear_arith);
    (t % w, t / w, i % 4)
}

/// A square image after a partial refresh: the texels of `upload` are the recomputed ones of
/// `proc`, all others are as before.
pub open spec fn is_refreshed(
    before: Seq<u8>,
    after: Seq<u8>,
    w: int,
    upload: TexRect,
    proc: TexRect,
    recomputed: Seq<u8>,
) -> bool {
    forall|x: int, y: int, c: int|
        0 <= x < w && 0 <= y < w && 0 <= c < 4 ==> #[trigger] image_at(after, w, x, y, c)
            == if proc.has(x, y) && upload.has(x, y) {
            region_at(recomputed, proc, x, y, c)
        } else {
            image_at(before, w, x, y, c)
        }
}

/// Refreshing a rectangle leaves the whole image as a full recomposite would: if the
/// recomputed texels of `upload` are right and everything outside it was right before,
/// then after putting the margin of the processed rectangle back every texel is right,
/// whatever the margin held in between.
pub proof fn law_region_refresh_matches_full(
    before: Seq<u8>,
    processed: Seq<u8>,
    full: Seq<u8>,
    snapshot: Seq<u8>,
    after: Seq<u8>,
    w: int,
    h: int,
    proc: TexRect,
    upload: TexRect,
)
    requires
        0 < w,
        is_image(before, w, h),
        is_image(processed, w, h),
        is_image(full, w, h),
        proc.within(w, h),
        is_region_of(before, w, proc, snapshot),
        forall|x: int, y: int, c: int|
            0 <= x < w && 0 <= y < h && 0 <= c < 4 && !proc.has(x, y) ==> #[trigger] image_at(
                processed,
                w,
                x,
                y,
                c,
            ) == image_at(before, w, x, y, c),
        forall|x: int, y: int, c: int|
            0 <= x < w && 0 <= y < h && 0 <= c < 4 && upload.has(x, y) && proc.has(x, y)
                ==> #[trigger] image_at(processed, w, x, y, c) == image_at(full, w, x, y, c),
        forall|x: int, y: int, c: int|
            0 <= x < w && 0 <= y < h && 0 <= c < 4 && !(upload.has(x, y) && proc.has(x, y))
                ==> #[trigger] image_at(before, w, x, y, c) == image_at(full, w, x, y, c),
        is_restored(processed, snapshot, w, proc, upload, after),
    ensures
        after == full,
{
    assert forall|i: int| 0 <= i < full.len() implies after[i] == full[i] by {
        let (x, y, c) = lemma_byte_position(i, w);
        if y >= h {
            assert(y * w >= w * h) by (nonlinear_arith)
                requires
                    y >= h,
                    0 < w,
            ;
        }
        assert(image_at(after, w, x, y, c) == if proc.has(x, y) && !upload.has(x, y) {
            region_at(snapshot, proc, x, y, c)
        } else {
            image_at(processed, w, x, y, c)
        });
        assert(image_at(before, w, x, y, c) == image_at(before, w, x, y, c));
        if proc.has(x, y) {
            assert(region_at(snapshot, proc, x, y, c) == image_at(before, w, x, y, c));
        }
        assert(image_at(after, w, x, y, c) == image_at(full, w, x, y, c));
    }
    assert(after =~= full);
}

/// The shade of the checkerboard square that holds `(x, y)`.
pub open spec fn checker_shade(x: int, y: int) -> u8 {
    if (x / 8 + y / 8) % 2 == 0 {
        230
    } else {
        200
    }
}

/// An opaque grey checkerboard with squares of eight texels.
pub fn make_checkerboard(w: u32, h: u32) -> (tex: PaintTexture)
    requires
        w * h * 4 <= u32::MAX,
    ensures
        tex.wf(),
        tex.width == w,
        tex.height == h,
        forall|x: int, y: int, c: int|
            0 <= x < w && 0 <= y < h && 0 <= c < 4 ==> #[trigger] image_at(
                tex.pixels@,
                w as int,
                x,
                y,
                c,
            ) == if c == 3 {
                255
            } else {
                checker_shade(x, y)
            },
{
    let mut pixels: Vec<u8> = Vec::new();
    let ghost wi: int = w as int;
    let ghost hi: int = h as int;
    let mut y: u32 = 0;
    while y < h
        invariant
            wi == w,
            hi == h,
            wi * hi * 4 <= u32::MAX,
            y <= h,
            pixels.len() == y * wi * 4,
            forall|u: int, v: int, c: int|
                0 <= u < wi && 0 <= v < y && 0 <= c < 4 ==> #[trigger] image_at(
                    pixels@,
                    wi,
                    u,
                    v,
                    c,
                ) == if c == 3 {
                    255
                } else {
                    checker_shade(u, v)
                },
        decreases h - y,
    {
        let mut x: u32 = 0;
        assert(y * wi * 4 == (y * wi + x) * 4);
        while x < w
            invariant
                wi == w,
                hi == h,
                wi * hi * 4 <= u32::MAX,
                y < h,
                x <= w,
                pixels.len() == (y * wi + x) * 4,
                forall|u: int, v: int, c: int|
                    0 <= u < wi && 0 <= v && (v < y || (v == y && u < x)) && 0 <= c < 4
                        ==> #[trigger] image_at(pixels@, wi, u, v, c) == if c == 3 {
                        255
                    } else {
                        checker_shade(u, v)
                    },
            decreases w - x,
        {
            let c: u8 = if (x / 8 + y / 8) % 2 == 0 {
                230
            } else {
                200
            };
            let ghost before = pixels@;
            pixels.push(c);
            pixels.push(c);
            pixels.push(c);
            pixels.push(255);
            proof {
                assert forall|u: int, v: int, k: int|
                    0 <= u < wi && 0 <= v && (v < y || (v == y && u < x + 1)) && 0 <= k
                        < 4 implies #[trigger] image_at(pixels@, wi, u, v, k) == if k == 3 {
                    255
                } else {
                    checker_shade(u, v)
                } by {
                    assert(0 <= v * wi) by (nonlinear_arith)
                        requires
                            0 <= v,
                            0 < wi,
                    ;
                    if v < y {
                        lemma_row_order(v, u, y as int, x as int, wi);
                        assert(image_at(pixels@, wi, u, v, k) == image_at(before, wi, u, v, k));
                    } else if u < x {
                        assert(image_at(pixels@, wi, u, v, k) == image_at(before, wi, u, v, k));
                    }
                }
            }
            x += 1;
        }
        proof {
            assert((y * wi + wi) * 4 == (y + 1) * wi * 4) by (nonlinear_arith);
        }
        y += 1;
    }
    proof {
        assert(h * wi * 4 == wi * hi * 4) by (nonlinear_arith)
            requires
                hi == h,
        ;
    }
    PaintTexture { width: w, height: h, pixels }
}

/// Rows of a readback buffer start at multiples of this many bytes.
pub const ROW_ALIGN: u32 = 256;

/// Bytes per row of a readback buffer for an image `width` texels wide: the row itself,
/// rounded up to the alignment.
pub fn padded_row_bytes(width: u32) -> (padded: u32)
    requires
        width * 4 + 255 <= u32::MAX,
    ensures
        padded % 256 == 0,
        width * 4 <= padded < width * 4 + 256,
{
    let row: u32 = width * 4;
    (row + (ROW_ALIGN - 1)) / ROW_ALIGN * ROW_ALIGN
}

/// The image in a readback buffer, without the padding at the end of each row.
pub fn strip_row_padding(data: &[u8], width: u32, height: u32, padded: u32) -> (pixels: Vec<u8>)
    requires
        width * 4 <= padded,
        padded * height <= data@.len(),
        padded * height <= u32::MAX,
    ensures
        is_image(pixels@, width as int, height as int),
        forall|x: int, y: int, c: int|
            0 <= x < width && 0 <= y < height && 0 <= c < 4 ==> #[trigger] image_at(
                pixels@,
                width as int,
                x,
                y,
                c,
            ) == data@[y * padded + x * 4 + c],
{
    let mut pixels: Vec<u8> = Vec::new();
    let ghost w: int = width as int;
    let unpadded: usize = width as usize * 4;
    let n: usize = data.len();
    let mut y: u32 = 0;
    while y < height
        invariant
            w == width,
            unpadded == 4 * w,
            unpadded <= padded,
            n == data@.len(),
            padded * height <= n,
            padded * height <= u32::MAX,
            y <= height,
            pixels.len() == y * w * 4,
            forall|u: int, v: int, c: int|
                0 <= u < w && 0 <= v < y && 0 <= c < 4 ==> #[trigger] image_at(
                    pixels@,
                    w,
                    u,
                    v,
                    c,
                ) == data@[v * padded + u * 4 + c],
        decreases height - y,
    {
        proof {
            assert(y * padded + padded <= padded * height) by (nonlinear_arith)
                requires
                    y < height,
                    0 <= padded,
            ;
            assert(0 <= y * padded) by (nonlinear_arith)
                requires
                    0 <= y,
                    0 <= padded,
            ;
        }
        let start: usize = (y * padded) as usize;
        let mut k: usize = 0;
        let ghost before = pixels@;
        while k < unpadded
            invariant
                unpadded == 4 * w,
                k <= unpadded <= padded,
                start == y * padded,
                start + padded <= n == data@.len(),
                before.len() == y * w * 4,
                pixels.len() == before.len() + k,
                forall|i: int| 0 <= i < before.len() ==> #[trigger] pixels@[i] == before[i],
                forall|i: int|
                    before.len() <= i < pixels.len() ==> #[trigger] pixels@[i] == data@[start + (i
                        - before.len())],
            decreases unpadded - k,
        {
            pixels.push(data[start + k]);
            k += 1;
        }
        proof {
            assert forall|u: int, v: int, c: int|
                0 <= u < w && 0 <= v < y + 1 && 0 <= c < 4 implies #[trigger] image_at(
                pixels@,
                w,
                u,
                v,
                c,
            ) == data@[v * padded + u * 4 + c] by {
                assert(0 <= v * w) by (nonlinear_arith)
                    requires
                        0 <= v,
                        0 < w,
                ;
                if v < y {
                    lemma_row_order(v, u, y as int, 0, w);
                    assert(image_at(pixels@, w, u, v, c) == image_at(before, w, u, v, c));
                } else {
                    assert((v * w + u) * 4 + c == before.len() + u * 4 + c);
                }
            }
            assert((y * w + w) * 4 == (y + 1) * w * 4) by (nonlinear_arith);
        }
        y += 1;
    }
    proof {
        assert(height * w * 4 == w * height * 4) by (nonlinear_arith);
    }
    pixels
}

/// Texel `t` of an image `size` texels wide lies in column `t % size`, row `t / size`.
pub open spec fn texel_in(r: TexRect, t: int, size: int) -> bool {
    r.has(t % size, t / size)
}

/// `r` is the smallest rectangle that holds the texels, or `None` where there are none.
pub open spec fn is_bounding(texels: Seq<usize>, size: int, r: Option<TexRect>) -> bool {
    match r {
        None => texels.len() == 0,
        Some(r) => {
            &&& texels.len() > 0
            &&& forall|i: int| 0 <= i < texels.len() ==> #[trigger] texel_in(r, texels[i] as int, size)
            &&& exists|i: int| 0 <= i < texels.len() && (#[trigger] texels[i]) as int % size == r.x0
            &&& exists|i: int|
                0 <= i < texels.len() && (#[trigger] texels[i]) as int % size + 1 == r.x1
            &&& exists|i: int| 0 <= i < texels.len() && (#[trigger] texels[i]) as int / size == r.y0
            &&& exists|i: int|
                0 <= i < texels.len() && (#[trigger] texels[i]) as int / size + 1 == r.y1
        },
    }
}

/// The bounding box of a set of texels of a `size` by `size` image.
pub fn bounding_rect(texels: &Vec<usize>, size: u32) -> (r: Option<TexRect>)
    requires
        size > 0,
        forall|i: int| 0 <= i < texels.len() ==> (#[trigger] texels@[i]) < size * size,
    ensures
        is_bounding(texels@, size as int, r),
        r matches Some(r) ==> r.within(size as int, size as int),
{
    let mut r: Option<TexRect> = None;
    let s: usize = size as usize;
    let mut i: usize = 0;
    while i < texels.len()
        invariant
            i <= texels.len(),
            s == size > 0,
            forall|i: int| 0 <= i < texels.len() ==> (#[trigger] texels@[i]) < size * size,
            is_bounding(texels@.take(i as int), size as int, r),
            r matches Some(r) ==> r.within(size as int, size as int),
        decreases texels.len() - i,
    {
        let t: usize = texels[i];
        proof {
            let z = size as int;
            let q = t as int / z;
            assert(0 <= q < z && 0 <= t as int % z < z) by (nonlinear_arith)
                requires
                    0 <= t < z * z,
                    0 < z,
                    q == t as int / z,
            ;
        }
        let tx: u32 = (t % s) as u32;
        let ty: u32 = (t / s) as u32;
        let one = TexRect { x0: tx, y0: ty, x1: tx + 1, y1: ty + 1 };
        let ghost prev = r;
        r = Some(grown(r, one));
        proof {
            lemma_bounding_push(texels@.take(i as int), t, size as int, prev, r->0);
            assert(texels@.take(i as int).push(t) =~= texels@.take(i + 1));
        }
        i += 1;
    }
    assert(texels@.take(i as int) =~= texels@);
    r
}

proof fn lemma_bounding_push(
    texels: Seq<usize>,
    t: usize,
    size: int,
    prev: Option<TexRect>,
    r: TexRect,
)
    requires
        is_bounding(texels, size, prev),
        size > 0,
        0 <= t as int % size < u32::MAX,
        0 <= t as int / size < u32::MAX,
        r == grown_spec(
            prev,
            (TexRect {
                x0: (t as int % size) as u32,
                y0: (t as int / size) as u32,
                x1: (t as int % size + 1) as u32,
                y1: (t as int / size + 1) as u32,
            }),
        ),
    ensures
        is_bounding(texels.push(t), size, Some(r)),
{
    let s = texels.push(t);
    let n = texels.len() as int;
    assert(s[n] == t);
    assert forall|i: int| 0 <= i < s.len() implies #[trigger] texel_in(r, s[i] as int, size) by {
        if i < n {
            assert(texel_in(prev->0, texels[i] as int, size));
        }
    }
    if prev is Some {
        let p = prev->0;
        let a = choose|i: int| 0 <= i < n && (#[trigger] texels[i]) as int % size == p.x0;
        let b = choose|i: int| 0 <= i < n && (#[trigger] texels[i]) as int % size + 1 == p.x1;
        let c = choose|i: int| 0 <= i < n && (#[trigger] texels[i]) as int / size == p.y0;
        let d = choose|i: int| 0 <= i < n && (#[trigger] texels[i]) as int / size + 1 == p.y1;
        assert(s[a] == texels[a] && s[b] == texels[b] && s[c] == texels[c] && s[d] == texels[d]);
    }
}

/// A flat colour whose alpha is given per texel.
pub fn tint_image(size: u32, color: [u8; 3], alphas: &Vec<u8>) -> (tex: PaintTexture)
    requires
        size * size * 4 <= u32::MAX,
        alphas.len() == size * size,
    ensures
        tex.wf(),
        tex.width == size,
        tex.height == size,
        forall|i: int|
            0 <= i < tex.pixels.len() ==> #[trigger] tex.pixels@[i] == if i % 4 == 3 {
                alphas@[i / 4]
            } else {
                color[i % 4]
            },
{
    let mut pixels: Vec<u8> = Vec::new();
    let n: usize = alphas.len();
    let mut t: usize = 0;
    while t < n
        invariant
            t <= n == alphas.len(),
            pixels.len() == 4 * t,
            forall|i: int|
                0 <= i < 4 * t ==> #[trigger] pixels@[i] == if i % 4 == 3 {
                    alphas@[i / 4]
                } else {
                    color[i % 4]
                },
        decreases n - t,
    {
        pixels.push(color[0]);
        pixels.push(color[1]);
        pixels.push(color[2]);
        pixels.push(alphas[t]);
        t += 1;
    }
    PaintTexture { width: size, height: size, pixels }
}

/// Where place `x` of `n` lies among `w` places.
pub open spec fn place_among(x: int, n: int, w: int) -> int {
    x * w / n
}

fn placed_among(x: u32, n: u32, w: u32) -> (p: u32)
    requires
        x < n,
        0 < w,
    ensures
        p == place_among(x as int, n as int, w as int),
        p < w,
{
    assert(0 <= x * w <= u32::MAX * u32::MAX) by (nonlinear_arith)
        requires
            0 <= x <= u32::MAX,
            0 <= w <= u32::MAX,
    ;
    assert((x as int * w as int) / (n as int) < w) by (nonlinear_arith)
        requires
            0 <= x < n,
            0 < w,
    ;
    let p: u64 = x as u64 * w as u64 / n as u64;
    p as u32
}

impl PaintTexture {
    /// The image stretched or shrunk to a square of side `n`, by the texel each place falls
    /// on.
    pub fn nearest(&self, n: u32) -> (tex: PaintTexture)
        requires
            self.wf(),
            0 < self.width && 0 < self.height,
            0 < n,
            n * n * 4 <= u32::MAX,
        ensures
            tex.wf(),
            tex.width == n,
            tex.height == n,
            forall|i: int|
                0 <= i < tex.pixels.len() ==> #[trigger] tex.pixels@[i] == image_at(
                    self.pixels@,
                    self.width as int,
                    place_among(i / 4 % n as int, n as int, self.width as int),
                    place_among(i / 4 / n as int, n as int, self.height as int),
                    i % 4,
                ),
    {
        let mut pixels: Vec<u8> = Vec::new();
        let (w, h) = (self.width, self.height);
        assert(n * n <= u32::MAX) by (nonlinear_arith)
            requires
                n * n * 4 <= u32::MAX,
        ;
        let count: u32 = n * n;
        let len: usize = self.pixels.len();
        let mut t: u32 = 0;
        while t < count
            invariant
                self.wf(),
                w == self.width && h == self.height && len == self.pixels.len(),
                0 < w && 0 < h && 0 < n,
                t <= count == n * n,
                count * 4 <= u32::MAX,
                pixels.len() == 4 * t,
                forall|i: int|
                    0 <= i < 4 * t ==> #[trigger] pixels@[i] == image_at(
                        self.pixels@,
                        w as int,
                        place_among(i / 4 % n as int, n as int, w as int),
                        place_among(i / 4 / n as int, n as int, h as int),
                        i % 4,
                    ),
            decreases count - t,
        {
            assert((t as int) / (n as int) < n) by (nonlinear_arith)
                requires
                    0 <= t < n * n,
                    0 < n,
            ;
            let x: u32 = placed_among(t % n, n, w);
            let y: u32 = placed_among(t / n, n, h);
            proof {
                lemma_in_image(x as int, y as int, w as int, h as int);
                assert(0 <= y * w) by (nonlinear_arith)
                    requires
                        0 <= y,
                        0 <= w,
                ;
                assert((y * w + x) * 4 + 4 <= len);
            }
            let at: usize = (y as usize * w as usize + x as usize) * 4;
            pixels.push(self.pixels[at]);
            pixels.push(self.pixels[at + 1]);
            pixels.push(self.pixels[at + 2]);
            pixels.push(self.pixels[at + 3]);
            t += 1;
        }
        PaintTexture { width: n, height: n, pixels }
    }
}

/// Opaque colours where the mask holds, transparent black elsewhere.
pub fn ramp_image(size: u32, mask: &Vec<bool>, colors: &Vec<[u8; 3]>) -> (tex: PaintTexture)
    requires
        size * size * 4 <= u32::MAX,
        mask.len() == size * size,
        colors.len() == mask.len(),
    ensures
        tex.wf(),
        tex.width == size,
        tex.height == size,
        forall|i: int|
            0 <= i < tex.pixels.len() ==> #[trigger] tex.pixels@[i] == if !mask@[i / 4] {
                0
            } else if i % 4 == 3 {
                255
            } else {
                colors@[i / 4][i % 4]
            },
{
    let mut pixels: Vec<u8> = Vec::new();
    let n: usize = mask.len();
    let mut t: usize = 0;
    while t < n
        invariant
            t <= n == mask.len() == colors.len(),
            pixels.len() == 4 * t,
            forall|i: int|
                0 <= i < 4 * t ==> #[trigger] pixels@[i] == if !mask@[i / 4] {
                    0
                } else if i % 4 == 3 {
                    255
                } else {
                    colors@[i / 4][i % 4]
                },
        decreases n - t,
    {
        if mask[t] {
            let c: [u8; 3] = colors[t];
            pixels.push(c[0]);
            pixels.push(c[1]);
            pixels.push(c[2]);
            pixels.push(255);
        } else {
            pixels.push(0);
            pixels.push(0);
            pixels.push(0);
            pixels.push(0);
        }
        t += 1;
    }
    PaintTexture { width: size, height: size, pixels }
}

/// An opaque grey image with the given levels: a reveal mask.
pub fn level_image(size: u32, levels: &Vec<u8>) -> (tex: PaintTexture)
    requires
        size * size * 4 <= u32::MAX,
        levels.len() == size * size,
    ensures
        tex.wf(),
        tex.width == size,
        tex.height == size,
        forall|i: int|
            0 <= i < tex.pixels.len() ==> #[trigger] tex.pixels@[i] == if i % 4 == 3 {
                255
            } else {
                levels@[i / 4]
            },
{
    let mut pixels: Vec<u8> = Vec::new();
    let n: usize = levels.len();
    let mut t: usize = 0;
    while t < n
        invariant
            t <= n == levels.len(),
            pixels.len() == 4 * t,
            forall|i: int|
                0 <= i < 4 * t ==> #[trigger] pixels@[i] == if i % 4 == 3 {
                    255
                } else {
                    levels@[i / 4]
                },
        decreases n - t,
    {
        let v: u8 = levels[t];
        pixels.push(v);
        pixels.push(v);
        pixels.push(v);
        pixels.push(255);
        t += 1;
    }
    PaintTexture { width: size, height: size, pixels }
}

} // verus!
