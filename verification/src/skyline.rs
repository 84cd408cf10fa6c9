//! Bottom-left skyline packing of chart footprints in whole pixels.
//!
//! The skyline is the upper outline of everything placed so far: a left-to-right list
//! of level stretches. A box is dropped on the lowest stretch it fits over, so two
//! boxes can never overlap.

use vstd::prelude::*;

verus! {

/// One level stretch of the skyline: the columns `x .. x + w` stand at height `top`.
#[derive(Clone, Copy, PartialEq, Eq, Structural, Debug)]
pub struct Segment {
    pub x: u64,
    pub w: u64,
    pub top: u64,
}

impl Segment {
    pub open spec fn end(self) -> int {
        self.x + self.w
    }

    pub open spec fn covers(self, c: int) -> bool {
        self.x <= c < self.x + self.w
    }
}

/// Segment `i` ends where segment `i + 1` starts, at a different height.
pub open spec fn steps_at(sky: Seq<Segment>, i: int) -> bool {
    &&& sky[i].end() == sky[i + 1].x
    &&& sky[i].top != sky[i + 1].top
}

/// A skyline in its canonical form: it starts at column 0, has no gaps and no empty
/// stretches, and two stretches side by side differ in height.
pub open spec fn canonical(sky: Seq<Segment>) -> bool {
    &&& sky.len() > 0 ==> sky[0].x == 0
    &&& forall|i: int| 0 <= i < sky.len() ==> (#[trigger] sky[i]).w > 0
    &&& forall|i: int| 0 <= i < sky.len() - 1 ==> #[trigger] steps_at(sky, i)
}

/// The column just right of the skyline.
pub open spec fn sky_end(sky: Seq<Segment>) -> int {
    if sky.len() == 0 {
        0
    } else {
        sky.last().end()
    }
}

/// Height of the skyline over column `c`; columns it does not reach stand at 0.
pub open spec fn height(sky: Seq<Segment>, c: int) -> int
    decreases sky.len(),
{
    if sky.len() == 0 {
        0
    } else if sky.last().covers(c) {
        sky.last().top as int
    } else {
        height(sky.drop_last(), c)
    }
}

/// `y` is the highest skyline column over `x .. x + w`, or 0 where there is none.
pub open spec fn is_top(sky: Seq<Segment>, x: int, w: int, y: int) -> bool {
    &&& 0 <= y
    &&& forall|c: int| x <= c < x + w ==> #[trigger] height(sky, c) <= y
    &&& y == 0 || exists|c: int| x <= c < x + w && #[trigger] height(sky, c) == y
}

/// Lower first, further left among equals.
pub open spec fn no_worse(y: int, x: int, other_y: int, other_x: int) -> bool {
    y < other_y || (y == other_y && x <= other_x)
}

proof fn lemma_canonical_order(sky: Seq<Segment>, i: int, j: int)
    requires
        canonical(sky),
        0 <= i < j < sky.len(),
    ensures
        sky[i].end() <= sky[j].x,
    decreases j - i,
{
    assert(steps_at(sky, j - 1));
    if i < j - 1 {
        lemma_canonical_order(sky, i, j - 1);
    }
}

proof fn lemma_canonical_prefix(sky: Seq<Segment>)
    requires
        canonical(sky),
        sky.len() > 0,
    ensures
        canonical(sky.drop_last()),
        sky_end(sky.drop_last()) == sky.last().x,
{
    let p = sky.drop_last();
    assert forall|i: int| 0 <= i < p.len() - 1 implies #[trigger] steps_at(p, i) by {
        assert(steps_at(sky, i));
    }
    if p.len() > 0 {
        assert(steps_at(sky, p.len() - 1));
    }
}

/// Inside a segment the skyline stands at that segment's top.
proof fn lemma_height_in(sky: Seq<Segment>, i: int, c: int)
    requires
        canonical(sky),
        0 <= i < sky.len(),
        sky[i].covers(c),
    ensures
        height(sky, c) == sky[i].top,
    decreases sky.len(),
{
    if i < sky.len() - 1 {
        lemma_canonical_order(sky, i, sky.len() - 1);
        lemma_canonical_prefix(sky);
        lemma_height_in(sky.drop_last(), i, c);
    }
}

/// Left of column 0 and right of the skyline the height is 0.
proof fn lemma_height_out(sky: Seq<Segment>, c: int)
    requires
        canonical(sky),
        c < 0 || c >= sky_end(sky),
    ensures
        height(sky, c) == 0,
    decreases sky.len(),
{
    if sky.len() > 0 {
        lemma_canonical_prefix(sky);
        lemma_height_out(sky.drop_last(), c);
    }
}

/// Every column of the skyline belongs to a segment.
proof fn lemma_segment_of(sky: Seq<Segment>, c: int) -> (i: int)
    requires
        canonical(sky),
        0 <= c < sky_end(sky),
    ensures
        0 <= i < sky.len(),
        sky[i].covers(c),
    decreases sky.len(),
{
    if sky.last().covers(c) {
        sky.len() - 1
    } else {
        lemma_canonical_prefix(sky);
        lemma_segment_of(sky.drop_last(), c)
    }
}

proof fn lemma_top_unique(sky: Seq<Segment>, x: int, w: int, a: int, b: int)
    requires
        is_top(sky, x, w, a),
        is_top(sky, x, w, b),
    ensures
        a == b,
{
}

/// The highest skyline column over `x .. x + w`: the height a box of width `w` placed
/// at `x` would rest on.
pub fn skyline_top(sky: &Vec<Segment>, x: u64, w: u64) -> (y: u64)
    requires
        canonical(sky@),
        sky_end(sky@) <= u64::MAX,
        0 < w,
        x + w <= u64::MAX,
    ensures
        is_top(sky@, x as int, w as int, y as int),
{
    let l: u64 = x;
    let r: u64 = x + w;
    let mut top: u64 = 0;
    let mut i: usize = 0;
    while i < sky.len()
        invariant
            canonical(sky@),
            sky_end(sky@) <= u64::MAX,
            i <= sky.len(),
            l == x,
            r == x + w,
            0 < w,
            forall|k: int|
                0 <= k < i ==> (#[trigger] sky@[k]).x < r && sky@[k].end() > l ==> sky@[k].top
                    <= top,
            top == 0 || exists|c: int| l <= c < r && #[trigger] height(sky@, c) == top,
        decreases sky.len() - i,
    {
        let s = sky[i];
        proof {
            if i < sky.len() - 1 {
                lemma_canonical_order(sky@, i as int, sky.len() - 1);
            }
        }
        if s.x < r && s.x + s.w > l && top < s.top {
            top = s.top;
            proof {
                let c: int = if s.x > l {
                    s.x as int
                } else {
                    l as int
                };
                lemma_height_in(sky@, i as int, c);
            }
        }
        i += 1;
    }
    proof {
        assert forall|c: int| l <= c < r implies #[trigger] height(sky@, c) <= top by {
            if c >= sky_end(sky@) {
                lemma_height_out(sky@, c);
            } else {
                let k = lemma_segment_of(sky@, c);
                lemma_height_in(sky@, k, c);
            }
        }
    }
    top
}

/// Lowest resting place `(x, y)` for a box `w` wide, trying the left edge of every
/// segment: smaller `y` first, then smaller `x`. Edges from which the box stays within
/// `bound_w` win over any from which it would run past it.
pub fn skyline_fit(sky: &Vec<Segment>, w: u64, bound_w: u64) -> (at: (u64, u64))
    requires
        canonical(sky@),
        sky.len() > 0,
        0 < w,
        sky_end(sky@) + w <= u64::MAX,
    ensures
        exists|i: int| 0 <= i < sky.len() && at.0 == (#[trigger] sky@[i]).x,
        is_top(sky@, at.0 as int, w as int, at.1 as int),
        forall|i: int|
            0 <= i < sky.len() && (#[trigger] sky@[i]).x + w <= bound_w ==> at.0 + w <= bound_w,
        forall|i: int, y: int|
            0 <= i < sky.len() && (sky@[i].x + w <= bound_w || at.0 + w > bound_w)
                && #[trigger] is_top(sky@, sky@[i].x as int, w as int, y) ==> no_worse(
                at.1 as int,
                at.0 as int,
                y,
                sky@[i].x as int,
            ),
{
    let mut best: Option<(u64, u64)> = None;
    let mut overflow: Option<(u64, u64)> = None;
    let mut i: usize = 0;
    while i < sky.len()
        invariant
            canonical(sky@),
            0 < w,
            sky_end(sky@) + w <= u64::MAX,
            i <= sky.len(),
            best matches Some(b) ==> placed_on(sky@, i as int, w as int, b.1 as int, b.0 as int)
                && b.1 + w <= bound_w,
            overflow matches Some(b) ==> placed_on(
                sky@,
                i as int,
                w as int,
                b.1 as int,
                b.0 as int,
            ) && b.1 + w > bound_w,
            forall|k: int|
                0 <= k < i && (#[trigger] sky@[k]).x + w <= bound_w ==> best is Some,
            forall|k: int|
                0 <= k < i && (#[trigger] sky@[k]).x + w > bound_w ==> overflow is Some,
            forall|k: int, y: int|
                0 <= k < i && sky@[k].x + w <= bound_w && #[trigger] is_top(
                    sky@,
                    sky@[k].x as int,
                    w as int,
                    y,
                ) ==> no_worse((best->0).0 as int, (best->0).1 as int, y, sky@[k].x as int),
            forall|k: int, y: int|
                0 <= k < i && sky@[k].x + w > bound_w && #[trigger] is_top(
                    sky@,
                    sky@[k].x as int,
                    w as int,
                    y,
                ) ==> no_worse((overflow->0).0 as int, (overflow->0).1 as int, y, sky@[k].x as int),
        decreases sky.len() - i,
    {
        proof {
            if i < sky.len() - 1 {
                lemma_canonical_order(sky@, i as int, sky.len() - 1);
            }
        }
        let x: u64 = sky[i].x;
        let y: u64 = skyline_top(sky, x, w);
        proof {
            assert forall|t: int| #[trigger] is_top(sky@, x as int, w as int, t) implies t == y by {
                lemma_top_unique(sky@, x as int, w as int, t, y as int);
            }
        }
        if x + w <= bound_w {
            let better: bool = match best {
                None => true,
                Some(b) => y < b.0 || (y == b.0 && x < b.1),
            };
            if better {
                best = Some((y, x));
            }
        } else {
            let better: bool = match overflow {
                None => true,
                Some(b) => y < b.0 || (y == b.0 && x < b.1),
            };
            if better {
                overflow = Some((y, x));
            }
        }
        i += 1;
    }
    match best {
        Some(b) => (b.1, b.0),
        None => match overflow {
            Some(b) => (b.1, b.0),
            None => {
                assert(sky@[0].x + w <= bound_w || sky@[0].x + w > bound_w);
                (0, 0)
            },
        },
    }
}

/// `(x, y)` is where a box `w` wide rests on the left edge of one of the first `n`
/// segments.
spec fn placed_on(sky: Seq<Segment>, n: int, w: int, x: int, y: int) -> bool {
    &&& exists|i: int| 0 <= i < n && x == (#[trigger] sky[i]).x
    &&& is_top(sky, x, w, y)
}

/// Appends a stretch of `w` columns at height `top`, merging it into the last segment
/// when that is level with it.
fn push_level(out: &mut Vec<Segment>, w: u64, top: u64)
    requires
        canonical(old(out)@),
        0 < w,
        sky_end(old(out)@) + w <= u64::MAX,
    ensures
        canonical(final(out)@),
        final(out).len() > 0,
        sky_end(final(out)@) == sky_end(old(out)@) + w,
        forall|c: int| #[trigger]
            height(final(out)@, c) == if sky_end(old(out)@) <= c < sky_end(old(out)@) + w {
                top as int
            } else {
                height(old(out)@, c)
            },
{
    let ghost before = out@;
    let n: usize = out.len();
    if n == 0 {
        out.push(Segment { x: 0, w, top });
        assert(out@.drop_last() =~= before);
    } else {
        let last = out[n - 1];
        let end: u64 = last.x + last.w;
        if last.top == top {
            out.set(n - 1, Segment { x: last.x, w: last.w + w, top });
            proof {
                assert(out@.drop_last() =~= before.drop_last());
                lemma_canonical_prefix(before);
                assert forall|i: int| 0 <= i < out.len() - 1 implies #[trigger] steps_at(
                    out@,
                    i,
                ) by {
                    assert(steps_at(before, i));
                }
                assert forall|c: int| #[trigger]
                    height(out@, c) == if end <= c < end + w {
                        top as int
                    } else {
                        height(before, c)
                    } by {
                    if last.covers(c) {
                        lemma_height_in(before, n - 1, c);
                    }
                }
            }
        } else {
            out.push(Segment { x: end, w, top });
            proof {
                assert(out@.drop_last() =~= before);
                assert forall|i: int| 0 <= i < out.len() - 1 implies #[trigger] steps_at(
                    out@,
                    i,
                ) by {
                    if i < n - 1 {
                        assert(steps_at(before, i));
                    }
                }
            }
        }
    }
}

/// Raises the skyline over `x .. x + w` to `ny`, first extending it at height 0 when the
/// box runs past its end.
pub fn skyline_add(sky: &mut Vec<Segment>, x: u64, w: u64, ny: u64)
    requires
        canonical(old(sky)@),
        sky_end(old(sky)@) <= u64::MAX,
        0 < w,
        x + w <= u64::MAX,
    ensures
        canonical(final(sky)@),
        final(sky).len() > 0,
        sky_end(final(sky)@) == if sky_end(old(sky)@) < x + w {
            x + w
        } else {
            sky_end(old(sky)@)
        },
        forall|c: int| #[trigger]
            height(final(sky)@, c) == if x <= c < x + w {
                ny as int
            } else {
                height(old(sky)@, c)
            },
{
    let l: u64 = x;
    let r: u64 = x + w;
    let ghost before = sky@;
    let mut out: Vec<Segment> = Vec::new();
    let mut i: usize = 0;
    while i < sky.len() && sky[i].x < l
        invariant
            canonical(sky@),
            sky_end(sky@) <= u64::MAX,
            canonical(out@),
            i <= sky.len(),
            sky_end(out@) == edge_before(sky@, i as int, l as int),
            forall|c: int| 0 <= c < sky_end(out@) ==> #[trigger] height(out@, c) == height(sky@, c),
        decreases sky.len() - i,
    {
        let s = sky[i];
        proof {
            if i < sky.len() - 1 {
                lemma_canonical_order(sky@, i as int, sky.len() - 1);
                assert(steps_at(sky@, i as int));
            }
            if i > 0 {
                assert(steps_at(sky@, i - 1));
            }
        }
        let send: u64 = s.x + s.w;
        let stop: u64 = if send < l {
            send
        } else {
            l
        };
        let ghost prior = out@;
        push_level(&mut out, stop - s.x, s.top);
        proof {
            assert forall|c: int| 0 <= c < sky_end(out@) implies #[trigger] height(out@, c)
                == height(sky@, c) by {
                if c >= sky_end(prior) {
                    lemma_height_in(sky@, i as int, c);
                } else {
                    assert(height(prior, c) == height(sky@, c));
                }
            }
        }
        i += 1;
    }
    let ghost mid = out@;
    let reached: u64 = if out.len() == 0 {
        0
    } else {
        let last = out[out.len() - 1];
        last.x + last.w
    };
    proof {
        if 0 < i < sky.len() {
            assert(steps_at(sky@, i - 1));
        }
        assert(sky@.take(sky.len() as int) =~= sky@);
    }
    if reached < l {
        push_level(&mut out, l - reached, 0);
    }
    proof {
        assert forall|c: int| 0 <= c < l implies #[trigger] height(out@, c) == height(sky@, c) by {
            if c >= sky_end(mid) {
                lemma_height_out(sky@, c);
            } else {
                assert(height(mid, c) == height(sky@, c));
            }
        }
    }
    let ghost left = out@;
    push_level(&mut out, w, ny);
    proof {
        assert forall|c: int| 0 <= c < r implies #[trigger] height(out@, c) == if l <= c {
            ny as int
        } else {
            height(sky@, c)
        } by {
            if c < l {
                assert(height(left, c) == height(sky@, c));
            }
        }
    }
    let mut j: usize = 0;
    while j < sky.len()
        invariant
            canonical(sky@),
            sky_end(sky@) <= u64::MAX,
            canonical(out@),
            out.len() > 0,
            j <= sky.len(),
            r == x + w,
            l == x,
            sky_end(out@) == edge_after(sky@, j as int, r as int),
            forall|c: int|
                0 <= c < sky_end(out@) ==> #[trigger] height(out@, c) == if l <= c < r {
                    ny as int
                } else {
                    height(sky@, c)
                },
        decreases sky.len() - j,
    {
        let s = sky[j];
        proof {
            if j < sky.len() - 1 {
                lemma_canonical_order(sky@, j as int, sky.len() - 1);
                assert(steps_at(sky@, j as int));
            }
            if j > 0 {
                assert(steps_at(sky@, j - 1));
            }
        }
        let send: u64 = s.x + s.w;
        if send > r {
            let cut: u64 = if s.x < r {
                r
            } else {
                s.x
            };
            let ghost prior = out@;
            push_level(&mut out, send - cut, s.top);
            proof {
                assert forall|c: int| 0 <= c < sky_end(out@) implies #[trigger] height(out@, c)
                    == if l <= c < r {
                    ny as int
                } else {
                    height(sky@, c)
                } by {
                    if c >= sky_end(prior) {
                        lemma_height_in(sky@, j as int, c);
                    } else {
                        assert(height(prior, c) == if l <= c < r {
                            ny as int
                        } else {
                            height(sky@, c)
                        });
                    }
                }
            }
        }
        j += 1;
    }
    proof {
        assert forall|c: int| #[trigger] height(out@, c) == if x <= c < x + w {
            ny as int
        } else {
            height(before, c)
        } by {
            if c < 0 || c >= sky_end(out@) {
                lemma_height_out(out@, c);
                lemma_height_out(before, c);
            }
        }
    }
    *sky = out;
}

/// How far the segments before `i` reach, not counting past `l`.
spec fn edge_before(sky: Seq<Segment>, i: int, l: int) -> int {
    let e = sky_end(sky.take(i));
    if e < l {
        e
    } else {
        l
    }
}

/// How far the segments before `j` reach, but at least to `r`.
spec fn edge_after(sky: Seq<Segment>, j: int, r: int) -> int {
    let e = sky_end(sky.take(j));
    if e < r {
        r
    } else {
        e
    }
}

/// A box of whole pixels: `w` by `h` with its corner at `(x, y)`.
pub struct PixelBox {
    pub x: int,
    pub y: int,
    pub w: int,
    pub h: int,
}

impl PixelBox {
    /// No pixel lies in both boxes.
    pub open spec fn apart(self, other: PixelBox) -> bool {
        ||| self.x + self.w <= other.x
        ||| other.x + other.w <= self.x
        ||| self.y + self.h <= other.y
        ||| other.y + other.h <= self.y
    }

    pub open spec fn spans(self, c: int) -> bool {
        self.x <= c < self.x + self.w
    }

    /// The box with a margin on every side.
    pub open spec fn widened(self, by: int) -> PixelBox {
        PixelBox { x: self.x - by, y: self.y - by, w: self.w + 2 * by, h: self.h + 2 * by }
    }
}

/// How high the placed boxes reach over column `c`.
pub open spec fn column(placed: Seq<PixelBox>, c: int) -> int
    decreases placed.len(),
{
    if placed.len() == 0 {
        0
    } else {
        let below = column(placed.drop_last(), c);
        let b = placed.last();
        if b.spans(c) && b.y + b.h > below {
            b.y + b.h
        } else {
            below
        }
    }
}

/// A box `w` wide at `x` comes to rest at height `y` on top of the placed boxes.
pub open spec fn rests_at(placed: Seq<PixelBox>, x: int, w: int, y: int) -> bool {
    &&& 0 <= y
    &&& forall|c: int| x <= c < x + w ==> #[trigger] column(placed, c) <= y
    &&& y == 0 || exists|c: int| x <= c < x + w && #[trigger] column(placed, c) == y
}

/// The outline of the placed boxes, drawn over `0 .. bound`, steps up or down at `x`, or
/// starts there.
pub open spec fn outline_edge(placed: Seq<PixelBox>, bound: int, x: int) -> bool {
    &&& 0 <= x < bound
    &&& x == 0 || column(placed, x - 1) != column(placed, x)
}

/// Box `b` stands where the packer puts it: on the outline edge, within `bound`, where it
/// rests lowest, and furthest left among those.
pub open spec fn lowest_left(placed: Seq<PixelBox>, bound: int, b: PixelBox) -> bool {
    &&& outline_edge(placed, bound, b.x)
    &&& b.x + b.w <= bound
    &&& rests_at(placed, b.x, b.w, b.y)
    &&& forall|x: int, y: int|
        outline_edge(placed, bound, x) && x + b.w <= bound && #[trigger] rests_at(
            placed,
            x,
            b.w,
            y,
        ) ==> no_worse(b.y, b.x, y, x)
}

/// Box `a` goes before box `b`: it is taller, or as tall and earlier in the list.
pub open spec fn goes_before(sizes: Seq<(u32, u32)>, a: int, b: int) -> bool {
    sizes[a].1 > sizes[b].1 || (sizes[a].1 == sizes[b].1 && a < b)
}

/// `order` lists every box once, tallest first and otherwise in the given order.
pub open spec fn tallest_first_order(sizes: Seq<(u32, u32)>, order: Seq<usize>) -> bool {
    &&& order.len() == sizes.len()
    &&& forall|k: int| 0 <= k < order.len() ==> (#[trigger] order[k]) < sizes.len()
    &&& forall|j: int, k: int|
        0 <= j < k < order.len() ==> goes_before(
            sizes,
            #[trigger] order[j] as int,
            #[trigger] order[k] as int,
        )
    &&& forall|i: usize| i < sizes.len() ==> #[trigger] order.contains(i)
}

/// The boxes in the order they were placed.
pub open spec fn placed_boxes(
    sizes: Seq<(u32, u32)>,
    offsets: Seq<(u64, u64)>,
    order: Seq<usize>,
) -> Seq<PixelBox> {
    Seq::new(order.len(), |k: int| box_at(sizes, offsets, order[k] as int))
}

/// Box `i` at its offset.
pub open spec fn box_at(sizes: Seq<(u32, u32)>, offsets: Seq<(u64, u64)>, i: int) -> PixelBox {
    PixelBox {
        x: offsets[i].0 as int,
        y: offsets[i].1 as int,
        w: sizes[i].0 as int,
        h: sizes[i].1 as int,
    }
}

/// The chart sizes with the gutter added on every side.
pub open spec fn footprints(csize: Seq<(u32, u32)>, gutter_px: u32) -> Seq<(u32, u32)> {
    Seq::new(
        csize.len(),
        |i: int| ((csize[i].0 + 2 * gutter_px) as u32, (csize[i].1 + 2 * gutter_px) as u32),
    )
}

pub open spec fn total_area(sizes: Seq<(u32, u32)>) -> int
    decreases sizes.len(),
{
    if sizes.len() == 0 {
        0
    } else {
        total_area(sizes.drop_last()) + sizes.last().0 * sizes.last().1
    }
}

pub open spec fn widest(sizes: Seq<(u32, u32)>) -> int
    decreases sizes.len(),
{
    if sizes.len() == 0 {
        0
    } else {
        let w = widest(sizes.drop_last());
        if sizes.last().0 > w {
            sizes.last().0 as int
        } else {
            w
        }
    }
}

/// `b` pixels reach at most a thousandth of a pixel past the square root of `area`.
pub open spec fn within_root(b: int, area: int) -> bool {
    b <= 0 || (1000 * b - 1) * (1000 * b - 1) <= 1_000_000 * area
}

/// `bound` is the width of the layout: the side of a square as large as all boxes
/// together, but never narrower than the widest box.
pub open spec fn is_square_bound(sizes: Seq<(u32, u32)>, bound: int) -> bool {
    &&& widest(sizes) <= bound
    &&& bound == widest(sizes) || within_root(bound, total_area(sizes))
    &&& !within_root(bound + 1, total_area(sizes))
}

/// The packed layout of boxes of the given sizes: `offsets` puts each box, tallest first,
/// at the lowest and then leftmost spot of a layout `bound` wide.
pub open spec fn is_skyline_layout(
    sizes: Seq<(u32, u32)>,
    bound: int,
    offsets: Seq<(u64, u64)>,
) -> bool {
    &&& offsets.len() == sizes.len()
    &&& exists|order: Seq<usize>| #[trigger]
        tallest_first_order(sizes, order) && is_greedy(placed_boxes(sizes, offsets, order), bound)
}

/// Every box stands at the lowest-left spot left by the boxes before it.
pub open spec fn is_greedy(placed: Seq<PixelBox>, bound: int) -> bool {
    forall|k: int|
        0 <= k < placed.len() ==> #[trigger] lowest_left(placed.take(k), bound, placed[k])
}

/// The indices of the boxes, tallest first; boxes of one height keep their order.
pub fn tallest_first(sizes: &Vec<(u32, u32)>) -> (order: Vec<usize>)
    ensures
        tallest_first_order(sizes@, order@),
{
    let mut order: Vec<usize> = Vec::new();
    let mut i: usize = 0;
    while i < sizes.len()
        invariant
            i <= sizes.len(),
            order.len() == i,
            forall|k: int| 0 <= k < order.len() ==> (#[trigger] order@[k]) < i,
            forall|j: int, k: int|
                0 <= j < k < order.len() ==> goes_before(
                    sizes@,
                    #[trigger] order@[j] as int,
                    #[trigger] order@[k] as int,
                ),
            forall|m: usize| m < i ==> #[trigger] order@.contains(m),
        decreases sizes.len() - i,
    {
        let mut at: usize = order.len();
        while at > 0 && sizes[order[at - 1]].1 < sizes[i].1
            invariant
                i < sizes.len(),
                at <= order.len(),
                forall|k: int| 0 <= k < order.len() ==> (#[trigger] order@[k]) < i,
                forall|k: int|
                    at <= k < order.len() ==> sizes@[(#[trigger] order@[k]) as int].1
                        < sizes@[i as int].1,
            decreases at,
        {
            at -= 1;
        }
        let ghost before = order@;
        proof {
            assert forall|k: int| 0 <= k < at implies sizes@[(#[trigger] before[k]) as int].1
                >= sizes@[i as int].1 by {
                if k < at - 1 {
                    assert(goes_before(sizes@, before[k] as int, before[at - 1] as int));
                }
            }
        }
        order.insert(at, i);
        proof {
            assert(order@ =~= before.insert(at as int, i));
            assert forall|m: usize| m < i + 1 implies #[trigger] order@.contains(m) by {
                if m < i {
                    assert(before.contains(m));
                    let k = choose|k: int| 0 <= k < before.len() && before[k] == m;
                    if k < at {
                        assert(order@[k] == m);
                    } else {
                        assert(order@[k + 1] == m);
                    }
                } else {
                    assert(order@[at as int] == m);
                }
            }
        }
        i += 1;
    }
    order
}

proof fn lemma_area_bound(sizes: Seq<(u32, u32)>)
    ensures
        0 <= total_area(sizes) <= sizes.len() * (u32::MAX * u32::MAX),
    decreases sizes.len(),
{
    if sizes.len() > 0 {
        lemma_area_bound(sizes.drop_last());
        let w = sizes.last().0;
        let h = sizes.last().1;
        assert(0 <= w * h <= u32::MAX * u32::MAX) by (nonlinear_arith)
            requires
                0 <= w <= u32::MAX,
                0 <= h <= u32::MAX,
        ;
    }
}

proof fn lemma_within_root_mono(a: int, b: int, area: int)
    requires
        a <= b,
        within_root(b, area),
        0 <= area,
    ensures
        within_root(a, area),
{
    if a > 0 {
        assert((1000 * a - 1) * (1000 * a - 1) <= (1000 * b - 1) * (1000 * b - 1))
            by (nonlinear_arith)
            requires
                0 < a <= b,
        ;
    }
}

/// The width to lay the boxes out in: the side of a square of their total area, and at
/// least the widest box.
pub fn square_bound(sizes: &Vec<(u32, u32)>) -> (bound: u64)
    requires
        sizes.len() <= u32::MAX,
    ensures
        is_square_bound(sizes@, bound as int),
        bound <= 0x2_0000_0000_0000,
{
    let mut area: u128 = 0;
    let mut wide: u64 = 0;
    let mut i: usize = 0;
    while i < sizes.len()
        invariant
            i <= sizes.len() <= u32::MAX,
            area == total_area(sizes@.take(i as int)),
            wide == widest(sizes@.take(i as int)),
            wide <= u32::MAX,
        decreases sizes.len() - i,
    {
        let s = sizes[i];
        proof {
            lemma_area_bound(sizes@.take(i as int));
            assert(sizes@.take(i + 1).drop_last() =~= sizes@.take(i as int));
            let w = s.0;
            let h = s.1;
            assert(0 <= w * h <= u32::MAX * u32::MAX) by (nonlinear_arith)
                requires
                    0 <= w <= u32::MAX,
                    0 <= h <= u32::MAX,
            ;
            assert(i * (u32::MAX * u32::MAX) <= u32::MAX * (u32::MAX * u32::MAX))
                by (nonlinear_arith)
                requires
                    0 <= i <= u32::MAX,
            ;
        }
        area = area + s.0 as u128 * s.1 as u128;
        if s.0 as u64 > wide {
            wide = s.0 as u64;
        }
        i += 1;
    }
    proof {
        assert(sizes@.take(sizes.len() as int) =~= sizes@);
        lemma_area_bound(sizes@);
        let n = sizes.len() as int;
        assert(n * (u32::MAX * u32::MAX) <= u32::MAX * (u32::MAX * u32::MAX)) by (nonlinear_arith)
            requires
                0 <= n <= u32::MAX,
        ;
    }
    let mut lo: u64 = 0;
    let mut hi: u64 = 0x2_0000_0000_0000;
    proof {
        let top: int = 1000 * 0x2_0000_0000_0000 - 1;
        assert(top * top > 1_000_000 * (u32::MAX * (u32::MAX * u32::MAX))) by (nonlinear_arith)
            requires
                top == 562949953421311999,
        ;
    }
    while lo + 1 < hi
        invariant
            area == total_area(sizes@),
            area <= u32::MAX * (u32::MAX * u32::MAX),
            lo < hi <= 0x2_0000_0000_0000,
            within_root(lo as int, area as int),
            !within_root(hi as int, area as int),
        decreases hi - lo,
    {
        let mid: u64 = lo + (hi - lo) / 2;
        let side: u128 = 1000 * mid as u128 - 1;
        proof {
            assert(0 <= side * side <= 0x7d0_0000_0000_0000 * 0x7d0_0000_0000_0000)
                by (nonlinear_arith)
                requires
                    0 <= side <= 0x7d0_0000_0000_0000,
            ;
        }
        if side * side <= 1_000_000 * area {
            lo = mid;
        } else {
            hi = mid;
        }
    }
    if wide > lo {
        proof {
            if within_root(wide + 1, area as int) {
                lemma_within_root_mono(lo + 1, wide + 1, area as int);
            }
        }
        wide
    } else {
        lo
    }
}

/// The left edges of the segments are the columns where the skyline steps.
proof fn lemma_edges(sky: Seq<Segment>, x: int)
    requires
        canonical(sky),
        sky.len() > 0,
    ensures
        (exists|i: int| 0 <= i < sky.len() && (#[trigger] sky[i]).x == x) <==> (0 <= x < sky_end(sky)
            && (x == 0 || height(sky, x - 1) != height(sky, x))),
{
    if exists|i: int| 0 <= i < sky.len() && (#[trigger] sky[i]).x == x {
        let i = choose|i: int| 0 <= i < sky.len() && (#[trigger] sky[i]).x == x;
        if i < sky.len() - 1 {
            lemma_canonical_order(sky, i, sky.len() - 1);
        }
        lemma_height_in(sky, i, x);
        if i > 0 {
            assert(steps_at(sky, i - 1));
            lemma_height_in(sky, i - 1, x - 1);
        }
    }
    if 0 <= x < sky_end(sky) && (x == 0 || height(sky, x - 1) != height(sky, x)) {
        let i = lemma_segment_of(sky, x);
        if sky[i].x < x {
            lemma_height_in(sky, i, x);
            lemma_height_in(sky, i, x - 1);
        }
    }
}

/// Every placed box lies below the outline over its columns.
proof fn lemma_column_covers(placed: Seq<PixelBox>, k: int, c: int)
    requires
        0 <= k < placed.len(),
        placed[k].spans(c),
    ensures
        placed[k].y + placed[k].h <= column(placed, c),
    decreases placed.len(),
{
    if k < placed.len() - 1 {
        lemma_column_covers(placed.drop_last(), k, c);
    }
}

/// Boxes that were placed one on top of the outline of the others do not overlap.
proof fn lemma_greedy_apart(placed: Seq<PixelBox>, bound: int, j: int, k: int)
    requires
        is_greedy(placed, bound),
        0 <= j < k < placed.len(),
        placed[j].w > 0,
        placed[k].w > 0,
    ensures
        placed[j].apart(placed[k]),
{
    let a = placed[j];
    let b = placed[k];
    assert(lowest_left(placed.take(k), bound, b));
    if a.x < b.x + b.w && b.x < a.x + a.w {
        let c = if a.x > b.x {
            a.x
        } else {
            b.x
        };
        lemma_column_covers(placed.take(k), j, c);
        assert(column(placed.take(k), c) <= b.y);
    }
}

proof fn lemma_widest(sizes: Seq<(u32, u32)>, i: int)
    requires
        0 <= i < sizes.len(),
    ensures
        sizes[i].0 <= widest(sizes),
    decreases sizes.len(),
{
    if i < sizes.len() - 1 {
        lemma_widest(sizes.drop_last(), i);
    }
}

/// A packing of chart sizes with gutters: the layout is the greedy one, no two footprints
/// share a pixel, and `(max_x, max_y)` is its extent.
pub open spec fn is_packed(
    csize: Seq<(u32, u32)>,
    gutter_px: u32,
    offsets: Seq<(u64, u64)>,
    max_x: int,
    max_y: int,
) -> bool {
    let sizes = footprints(csize, gutter_px);
    &&& exists|bound: int| #[trigger]
        is_square_bound(sizes, bound) && is_skyline_layout(sizes, bound, offsets) && max_x <= bound
    &&& forall|i: int, j: int|
        0 <= i < j < csize.len() ==> (#[trigger] box_at(sizes, offsets, i)).apart(
            #[trigger] box_at(sizes, offsets, j),
        )
    &&& is_extent(sizes, offsets, max_x, max_y)
}

/// The charts themselves, inside their gutters, keep two gutters between them, and stay a
/// gutter away from the edge of the layout: one chart's bleed cannot reach another's.
pub proof fn law_charts_keep_their_gutters(
    csize: Seq<(u32, u32)>,
    gutter_px: u32,
    offsets: Seq<(u64, u64)>,
    max_x: int,
    max_y: int,
    i: int,
    j: int,
)
    requires
        is_packed(csize, gutter_px, offsets, max_x, max_y),
        0 <= i < csize.len(),
        0 <= j < csize.len(),
        i != j,
        forall|k: int|
            0 <= k < csize.len() ==> (#[trigger] csize[k]).0 + 2 * gutter_px <= u32::MAX
                && csize[k].1 + 2 * gutter_px <= u32::MAX,
    ensures
        chart_box(csize, gutter_px, offsets, i).widened(2 * gutter_px).apart(
            chart_box(csize, gutter_px, offsets, j),
        ),
        gutter_px <= chart_box(csize, gutter_px, offsets, i).x,
        gutter_px <= chart_box(csize, gutter_px, offsets, i).y,
        chart_box(csize, gutter_px, offsets, i).x + csize[i].0 + gutter_px <= max_x,
        chart_box(csize, gutter_px, offsets, i).y + csize[i].1 + gutter_px <= max_y,
{
    let sizes = footprints(csize, gutter_px);
    let a = box_at(sizes, offsets, i);
    let b = box_at(sizes, offsets, j);
    assert(csize[i].0 + 2 * gutter_px <= u32::MAX);
    assert(csize[j].0 + 2 * gutter_px <= u32::MAX);
    if i < j {
        assert(a.apart(b));
    } else {
        assert(b.apart(a));
    }
}

/// Where a chart itself lies: its offset is that of its footprint, which starts a gutter
/// earlier.
pub open spec fn chart_box(
    csize: Seq<(u32, u32)>,
    gutter_px: u32,
    offsets: Seq<(u64, u64)>,
    i: int,
) -> PixelBox {
    PixelBox {
        x: offsets[i].0 + gutter_px,
        y: offsets[i].1 + gutter_px,
        w: csize[i].0 as int,
        h: csize[i].1 as int,
    }
}

/// Packs chart sizes, in whole pixels and with a gutter of `gutter_px` on every side.
/// Returns each chart's offset and the extent used.
///
/// Charts never overlap: each box is placed on top of the skyline over its span. A
/// footprint is at least one pixel wide.
pub fn skyline_pack(csize: &[(u32, u32)], gutter_px: u32) -> (packed: (Vec<(u64, u64)>, u64, u64))
    requires
        csize@.len() <= u32::MAX,
        forall|i: int|
            0 <= i < csize@.len() ==> 0 < (#[trigger] csize@[i]).0 + 2 * gutter_px <= u32::MAX
                && csize@[i].1 + 2 * gutter_px <= u32::MAX,
    ensures
        is_packed(csize@, gutter_px, packed.0@, packed.1 as int, packed.2 as int),
{
    let n: usize = csize.len();
    let mut psize: Vec<(u32, u32)> = Vec::new();
    let mut i: usize = 0;
    while i < n
        invariant
            i <= n == csize@.len(),
            psize.len() == i,
            forall|i: int|
                0 <= i < csize@.len() ==> 0 < (#[trigger] csize@[i]).0 + 2 * gutter_px <= u32::MAX
                    && csize@[i].1 + 2 * gutter_px <= u32::MAX,
            forall|k: int|
                0 <= k < i ==> #[trigger] psize@[k] == footprints(csize@, gutter_px)[k],
        decreases n - i,
    {
        let s = csize[i];
        psize.push((s.0 + 2 * gutter_px, s.1 + 2 * gutter_px));
        i += 1;
    }
    assert(psize@ =~= footprints(csize@, gutter_px));
    let order = tallest_first(&psize);
    let bound_w: u64 = square_bound(&psize);
    let mut sky: Vec<Segment> = Vec::new();
    let start: u64 = if bound_w < 1 {
        1
    } else {
        bound_w
    };
    push_level(&mut sky, start, 0);
    let mut offsets: Vec<(u64, u64)> = Vec::new();
    let mut m: usize = 0;
    while m < n
        invariant
            m <= n,
            offsets.len() == m,
        decreases n - m,
    {
        offsets.push((0, 0));
        m += 1;
    }
    let mut max_x: u64 = 0;
    let mut max_y: u64 = 0;
    let ghost sizes = psize@;
    let ghost mut placed: Seq<PixelBox> = Seq::empty();
    let mut k: usize = 0;
    while k < n
        invariant
            k <= n == psize.len() == order.len() == offsets.len(),
            n <= u32::MAX,
            sizes == psize@,
            tallest_first_order(sizes, order@),
            is_square_bound(sizes, bound_w as int),
            bound_w <= 0x2_0000_0000_0000,
            n > 0 ==> sky_end(sky@) == bound_w,
            forall|i: int| 0 <= i < n ==> (#[trigger] sizes[i]).0 > 0,
            canonical(sky@),
            sky.len() > 0,
            placed.len() == k,
            forall|j: int|
                0 <= j < k ==> #[trigger] placed[j] == box_at(sizes, offsets@, order@[j] as int),
            forall|c: int| #[trigger] height(sky@, c) == column(placed, c),
            forall|c: int| #[trigger] column(placed, c) <= k * u32::MAX,
            is_greedy(placed, bound_w as int),
            forall|j: int| 0 <= j < k ==> (#[trigger] placed[j]).x + placed[j].w <= max_x,
            forall|j: int| 0 <= j < k ==> (#[trigger] placed[j]).y + placed[j].h <= max_y,
            max_x <= bound_w,
            max_x == 0 || exists|j: int|
                0 <= j < k && (#[trigger] placed[j]).x + placed[j].w == max_x,
            max_y == 0 || exists|j: int|
                0 <= j < k && (#[trigger] placed[j]).y + placed[j].h == max_y,
        decreases n - k,
    {
        let b: usize = order[k];
        let w: u64 = psize[b].0 as u64;
        let h: u64 = psize[b].1 as u64;
        proof {
            lemma_widest(sizes, b as int);
        }
        let (px, py) = skyline_fit(&sky, w, bound_w);
        let ghost spot = PixelBox { x: px as int, y: py as int, w: w as int, h: h as int };
        proof {
            assert(sky@[0].x + w <= bound_w);
            assert(px + w <= bound_w);
            lemma_spot(
                sky@,
                placed,
                bound_w as int,
                w as int,
                h as int,
                px as int,
                py as int,
            );
            assert(lowest_left(placed, bound_w as int, spot));
            assert(py <= k * u32::MAX) by {
                if py > 0 {
                    let c = choose|c: int| px <= c < px + w && #[trigger] height(sky@, c) == py;
                    assert(column(placed, c) <= k * u32::MAX);
                }
            }
            assert(k * u32::MAX + u32::MAX == (k + 1) * u32::MAX) by (nonlinear_arith);
            assert((k + 1) * u32::MAX <= u32::MAX * u32::MAX) by (nonlinear_arith)
                requires
                    0 <= k < u32::MAX,
            ;
        }
        offsets.set(b, (px, py));
        let ghost old_sky = sky@;
        skyline_add(&mut sky, px, w, py + h);
        if px + w > max_x {
            max_x = px + w;
        }
        if py + h > max_y {
            max_y = py + h;
        }
        let ghost prior = placed;
        proof {
            placed = placed.push(spot);
            assert(placed.drop_last() =~= prior);
            assert forall|j: int| 0 <= j < k + 1 implies #[trigger] placed[j] == box_at(
                sizes,
                offsets@,
                order@[j] as int,
            ) by {
                if j < k {
                    assert(goes_before(sizes, order@[j] as int, order@[k as int] as int));
                    assert(placed[j] == prior[j]);
                }
            }
            assert forall|c: int| #[trigger] height(sky@, c) == column(placed, c) by {
                assert(height(old_sky, c) == column(prior, c));
                if px <= c < px + w {
                    assert(height(old_sky, c) <= py);
                }
            }
            assert forall|c: int| #[trigger] column(placed, c) <= (k + 1) * u32::MAX by {
                assert(column(prior, c) <= k * u32::MAX);
            }
            assert forall|j: int| 0 <= j < placed.len() implies #[trigger] lowest_left(
                placed.take(j),
                bound_w as int,
                placed[j],
            ) by {
                if j < k {
                    assert(placed.take(j) =~= prior.take(j));
                    assert(lowest_left(prior.take(j), bound_w as int, prior[j]));
                } else {
                    assert(placed.take(j) =~= prior);
                }
            }
            assert(placed[k as int] == spot);
            if max_x != px + w && max_x > 0 {
                let j = choose|j: int|
                    0 <= j < k && (#[trigger] prior[j]).x + prior[j].w == max_x;
                assert(placed[j] == prior[j]);
            }
            if max_y != py + h && max_y > 0 {
                let j = choose|j: int|
                    0 <= j < k && (#[trigger] prior[j]).y + prior[j].h == max_y;
                assert(placed[j] == prior[j]);
            }
        }
        k += 1;
    }
    proof {
        assert(placed_boxes(sizes, offsets@, order@) =~= placed);
        assert(is_skyline_layout(sizes, bound_w as int, offsets@));
        assert forall|i: int, j: int| 0 <= i < j < n implies (#[trigger] box_at(
            sizes,
            offsets@,
            i,
        )).apart(#[trigger] box_at(sizes, offsets@, j)) by {
            let a = lemma_turn(sizes, order@, i);
            let b = lemma_turn(sizes, order@, j);
            assert(placed[a] == box_at(sizes, offsets@, i));
            assert(placed[b] == box_at(sizes, offsets@, j));
            if a < b {
                lemma_greedy_apart(placed, bound_w as int, a, b);
            } else {
                lemma_greedy_apart(placed, bound_w as int, b, a);
            }
        }
        assert forall|i: int| 0 <= i < n implies {
            let b = #[trigger] box_at(sizes, offsets@, i);
            0 <= b.x && b.x + b.w <= max_x && 0 <= b.y && b.y + b.h <= max_y
        } by {
            let a = lemma_turn(sizes, order@, i);
            assert(placed[a] == box_at(sizes, offsets@, i));
        }
    }
    (offsets, max_x, max_y)
}

/// The placement turn of box `i`.
proof fn lemma_turn(sizes: Seq<(u32, u32)>, order: Seq<usize>, i: int) -> (k: int)
    requires
        tallest_first_order(sizes, order),
        sizes.len() <= usize::MAX,
        0 <= i < sizes.len(),
    ensures
        0 <= k < order.len(),
        order[k] == i,
{
    assert(order.contains(i as usize));
    choose|k: int| 0 <= k < order.len() && order[k] == i as usize
}

/// `(max_x, max_y)` is the smallest extent that holds every box.
pub open spec fn is_extent(
    sizes: Seq<(u32, u32)>,
    offsets: Seq<(u64, u64)>,
    max_x: int,
    max_y: int,
) -> bool {
    &&& 0 <= max_x && 0 <= max_y
    &&& forall|i: int|
        0 <= i < sizes.len() ==> {
            let b = #[trigger] box_at(sizes, offsets, i);
            0 <= b.x && b.x + b.w <= max_x && 0 <= b.y && b.y + b.h <= max_y
        }
    &&& max_x == 0 || exists|i: int|
        0 <= i < sizes.len() && {
            let b = #[trigger] box_at(sizes, offsets, i);
            b.x + b.w == max_x
        }
    &&& max_y == 0 || exists|i: int|
        0 <= i < sizes.len() && {
            let b = #[trigger] box_at(sizes, offsets, i);
            b.y + b.h == max_y
        }
}

/// What the fit search finds on the skyline is the lowest-left spot on the boxes.
proof fn lemma_spot(
    sky: Seq<Segment>,
    placed: Seq<PixelBox>,
    bound: int,
    w: int,
    h: int,
    px: int,
    py: int,
)
    requires
        canonical(sky),
        sky.len() > 0,
        sky_end(sky) == bound,
        forall|c: int| #[trigger] height(sky, c) == column(placed, c),
        exists|i: int| 0 <= i < sky.len() && px == (#[trigger] sky[i]).x,
        px + w <= bound,
        is_top(sky, px, w, py),
        forall|i: int, y: int|
            0 <= i < sky.len() && sky[i].x + w <= bound && #[trigger] is_top(
                sky,
                sky[i].x as int,
                w,
                y,
            ) ==> no_worse(py, px, y, sky[i].x as int),
    ensures
        lowest_left(placed, bound, (PixelBox { x: px, y: py, w: w, h: h })),
{
    lemma_edges(sky, px);
    assert(outline_edge(placed, bound, px)) by {
        assert(height(sky, px - 1) == column(placed, px - 1));
        assert(height(sky, px) == column(placed, px));
    }
    assert(rests_at(placed, px, w, py)) by {
        assert forall|c: int| px <= c < px + w implies #[trigger] column(placed, c) <= py by {
            assert(height(sky, c) == column(placed, c));
        }
        if py > 0 {
            let c = choose|c: int| px <= c < px + w && #[trigger] height(sky, c) == py;
            assert(column(placed, c) == py);
        }
    }
    assert forall|x: int, y: int|
        outline_edge(placed, bound, x) && x + w <= bound && #[trigger] rests_at(
            placed,
            x,
            w,
            y,
        ) implies no_worse(py, px, y, x) by {
        assert(height(sky, x - 1) == column(placed, x - 1));
        assert(height(sky, x) == column(placed, x));
        lemma_edges(sky, x);
        let i = choose|i: int| 0 <= i < sky.len() && (#[trigger] sky[i]).x == x;
        assert(is_top(sky, sky[i].x as int, w, y)) by {
            if y > 0 {
                let c = choose|c: int| x <= c < x + w && #[trigger] column(placed, c) == y;
                assert(height(sky, c) == y);
            }
        }
    }
}

} // verus!
