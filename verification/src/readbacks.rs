//! What is read back from the GPU, and what is walked texel by texel.

use crate::document::{is_covered, is_pasted};
use crate::mesh::{byte_of, high_first, low_first, next_slot};
use crate::pick::{is_diameter, is_first_greatest, is_first_least};
use crate::raster::{box_found, row_found};
use crate::stroke::{cov_at, cover_agrees, row_covered, texel, texel_covered, texel_xy};
use crate::texture::{image_at, region_at, TexRect};
use vstd::prelude::*;

verus! {

/// Coverage that was read back is blended texel by texel from the image before the stroke:
/// a texel of the rectangle with coverage becomes its old value blended at that coverage, and
/// every other texel stays.
pub proof fn law_read_back_coverage_blends_from_the_base<
    B: Fn(usize, [u8; 4], u32) -> [u8; 4],
>(
    px0: Seq<u8>,
    px: Seq<u8>,
    base: Seq<u8>,
    cov: Seq<u32>,
    rect: TexRect,
    w: int,
    blend: B,
    f: spec_fn(usize, Seq<u8>, u32) -> Seq<u8>,
    x: int,
    y: int,
)
    requires
        is_covered(px0, px, base, cov, rect, w, blend),
        cover_agrees(blend, f),
        0 <= x < w,
        0 <= y < w,
    ensures
        ({
            let t = y * w + x;
            let inside = rect.x0 <= x < rect.x1 && rect.y0 <= y < rect.y1;
            let c = cov[(y - rect.y0) * (rect.x1 - rect.x0) + (x - rect.x0)];
            &&& inside && c > 0 ==> texel(px, t) == f(t as usize, texel(base, t), c)
            &&& !inside || c == 0 ==> texel(px, t) == texel(px0, t)
        }),
        px.len() == px0.len(),
{
    assert(texel_xy(px, w, x, y) == texel(px, y * w + x));
    assert(texel_covered(px0, px, base, cov, rect, w, f, x, y));
    assert(cov_at(cov, rect, x, y) == cov[(y - rect.y0) * (rect.x1 - rect.x0) + (x - rect.x0)]);
}

/// Whatever the blend answers, a texel outside the rectangle stays, and so does one that has
/// no coverage.
pub proof fn law_texels_without_coverage_stay<B: Fn(usize, [u8; 4], u32) -> [u8; 4]>(
    px0: Seq<u8>,
    px: Seq<u8>,
    base: Seq<u8>,
    cov: Seq<u32>,
    rect: TexRect,
    w: int,
    blend: B,
    x: int,
    y: int,
)
    requires
        is_covered(px0, px, base, cov, rect, w, blend),
        0 <= x < w,
        0 <= y < w,
        x < rect.x0 || x >= rect.x1 || y < rect.y0 || y >= rect.y1 || cov[(y - rect.y0) * (rect.x1
            - rect.x0) + (x - rect.x0)] == 0,
    ensures
        texel(px, y * w + x) == texel(px0, y * w + x),
{
    assert(texel_xy(px, w, x, y) == texel_xy(px0, w, x, y));
}

/// In one row, texels without coverage stay, and two rows with the same base and coverage
/// agree wherever there is some, whatever they held before.
pub proof fn law_a_row_is_covered_from_its_base(
    a0: Seq<u8>,
    a: Seq<u8>,
    b0: Seq<u8>,
    b: Seq<u8>,
    base: Seq<u8>,
    cov: Seq<u32>,
    x0: int,
    first: int,
    f: spec_fn(usize, Seq<u8>, u32) -> Seq<u8>,
    rx: int,
)
    requires
        row_covered(a0, a, base, cov, x0, first, f, rx),
        row_covered(b0, b, base, cov, x0, first, f, rx),
    ensures
        cov[rx] == 0 ==> texel(a, x0 + rx) == texel(a0, x0 + rx),
        cov[rx] > 0 ==> texel(a, x0 + rx) == texel(b, x0 + rx) && texel(a, x0 + rx) == f(
            (first + x0 + rx) as usize,
            texel(base, x0 + rx),
            cov[rx],
        ),
{
}

/// Pixels that were read back replace those of their rectangle, row by row, and no others.
pub proof fn law_read_back_pixels_replace_their_rectangle(
    px0: Seq<u8>,
    px: Seq<u8>,
    packed: Seq<u8>,
    w: int,
    rect: TexRect,
    x: int,
    y: int,
    c: int,
)
    requires
        is_pasted(px0, px, packed, w, rect),
        0 <= x < w,
        0 <= y,
        0 <= c < 4,
        (y * w + x) * 4 + c < px0.len(),
    ensures
        ({
            let inside = rect.x0 <= x < rect.x1 && rect.y0 <= y < rect.y1;
            let at = (y * w + x) * 4 + c;
            &&& inside ==> px[at] == packed[((y - rect.y0) * (rect.x1 - rect.x0) + (x - rect.x0))
                * 4 + c]
            &&& !inside ==> px[at] == px0[at]
        }),
        px.len() == px0.len(),
{
    assert(image_at(px, w, x, y, c) == if rect.has(x, y) {
        region_at(packed, rect, x, y, c)
    } else {
        image_at(px0, w, x, y, c)
    });
}

proof fn lemma_row_has<T>(
    f: spec_fn(u32, u32) -> Option<T>,
    size: u32,
    x0: int,
    x1: int,
    y: int,
    x: u32,
    k: int,
)
    requires
        0 <= x0,
        x1 <= u32::MAX,
        0 <= y <= u32::MAX,
        y * size + x1 <= usize::MAX,
        0 <= y * size,
    ensures
        x0 <= x < x1 && f(x, y as u32) is Some ==> row_found(f, size, x0, x1, y).contains(
            ((y * size + x) as usize, f(x, y as u32)->0),
        ),
        0 <= k < row_found(f, size, x0, x1, y).len() ==> ({
            let (t, v) = row_found(f, size, x0, x1, y)[k];
            &&& x0 <= t - y * size < x1
            &&& f((t - y * size) as u32, y as u32) == Some(v)
        }),
        forall|i: int|
            #![trigger row_found(f, size, x0, x1, y)[i]]
            0 <= i < k < row_found(f, size, x0, x1, y).len() ==> row_found(f, size, x0, x1, y)[i].0
                < row_found(f, size, x0, x1, y)[k].0,
    decreases x1 - x0,
{
    if x1 > x0 {
        lemma_row_has(f, size, x0, x1 - 1, y, x, k);
        let before = row_found(f, size, x0, x1 - 1, y);
        let all = row_found(f, size, x0, x1, y);
        if x0 <= x < x1 - 1 && f(x, y as u32) is Some {
            let e = ((y * size + x) as usize, f(x, y as u32)->0);
            let i = choose|i: int| 0 <= i < before.len() && before[i] == e;
            assert(all[i] == e);
        }
        if x == x1 - 1 && f(x, y as u32) is Some {
            assert(all[before.len() as int] == ((y * size + x) as usize, f(x, y as u32)->0));
        }
        assert forall|i: int| #![trigger all[i]] 0 <= i < k < all.len() implies all[i].0
            < all[k].0 by {
            lemma_row_has(f, size, x0, x1 - 1, y, x, i);
            if k < before.len() {
                assert(before[i].0 < before[k].0);
            }
        }
    }
}

/// Walking a box finds every texel in it that is inside, with its value, and no other.
pub proof fn law_walking_a_box_finds_what_is_inside<T>(
    f: spec_fn(u32, u32) -> Option<T>,
    size: u32,
    x0: u32,
    x1: u32,
    y0: u32,
    y1: u32,
    x: u32,
    y: u32,
    k: int,
)
    requires
        size * size <= u32::MAX,
        x1 <= size,
        y1 <= size,
    ensures
        x0 <= x < x1 && y0 <= y < y1 && f(x, y) is Some ==> box_found(
            f,
            size,
            x0 as int,
            x1 as int,
            y0 as int,
            y1 as int,
        ).contains(((y * size + x) as usize, f(x, y)->0)),
        0 <= k < box_found(f, size, x0 as int, x1 as int, y0 as int, y1 as int).len() ==> ({
            let (t, v) = box_found(f, size, x0 as int, x1 as int, y0 as int, y1 as int)[k];
            let (u, w) = (t as int % size as int, t as int / size as int);
            &&& x0 <= u < x1 && y0 <= w < y1
            &&& f(u as u32, w as u32) == Some(v)
        }),
{
    lemma_box_has(f, size, x0, x1, y0 as int, y1 as int, x, y, k);
}

proof fn lemma_box_has<T>(
    f: spec_fn(u32, u32) -> Option<T>,
    size: u32,
    x0: u32,
    x1: u32,
    y0: int,
    y1: int,
    x: u32,
    y: u32,
    k: int,
)
    requires
        size * size <= u32::MAX,
        x1 <= size,
        0 <= y0,
        y1 <= size,
    ensures
        x0 <= x < x1 && y0 <= y < y1 && f(x, y) is Some ==> box_found(
            f,
            size,
            x0 as int,
            x1 as int,
            y0,
            y1,
        ).contains(((y * size + x) as usize, f(x, y)->0)),
        0 <= k < box_found(f, size, x0 as int, x1 as int, y0, y1).len() ==> ({
            let (t, v) = box_found(f, size, x0 as int, x1 as int, y0, y1)[k];
            let (u, w) = (t as int % size as int, t as int / size as int);
            &&& x0 <= u < x1 && y0 <= w < y1
            &&& f(u as u32, w as u32) == Some(v)
        }),
    decreases y1 - y0,
{
    if y1 > y0 {
        lemma_box_has(f, size, x0, x1, y0, y1 - 1, x, y, k);
        let above = box_found(f, size, x0 as int, x1 as int, y0, y1 - 1);
        let row = row_found(f, size, x0 as int, x1 as int, y1 - 1);
        let all = box_found(f, size, x0 as int, x1 as int, y0, y1);
        let last = y1 - 1;
        assert(0 <= last * size && last * size + size <= size * size) by (nonlinear_arith)
            requires
                0 <= last < size,
        ;
        lemma_row_has(f, size, x0 as int, x1 as int, last, x, k - above.len());
        if x0 <= x < x1 && y0 <= y < y1 && f(x, y) is Some {
            let e = ((y * size + x) as usize, f(x, y)->0);
            if y < last {
                let i = choose|i: int| 0 <= i < above.len() && above[i] == e;
                assert(all[i] == e);
            } else {
                let i = choose|i: int| 0 <= i < row.len() && row[i] == e;
                assert(all[above.len() + i] == e);
            }
        }
        if above.len() <= k < all.len() {
            let (t, v) = all[k];
            assert(all[k] == row[k - above.len()]);
            let u = t - last * size;
            assert(t == last * size + u);
            vstd::arithmetic::div_mod::lemma_fundamental_div_mod_converse(
                t as int,
                size as int,
                last,
                u,
            );
        }
    }
}

/// A box is walked row by row from the top, and each row from the left: texels come in rising
/// order, and none twice.
pub proof fn law_a_box_is_walked_in_order<T>(
    f: spec_fn(u32, u32) -> Option<T>,
    size: u32,
    x0: u32,
    x1: u32,
    y0: u32,
    y1: u32,
    i: int,
    k: int,
)
    requires
        size * size <= u32::MAX,
        x1 <= size,
        y1 <= size,
        0 <= i < k < box_found(f, size, x0 as int, x1 as int, y0 as int, y1 as int).len(),
    ensures
        box_found(f, size, x0 as int, x1 as int, y0 as int, y1 as int)[i].0 < box_found(
            f,
            size,
            x0 as int,
            x1 as int,
            y0 as int,
            y1 as int,
        )[k].0,
{
    lemma_box_order(f, size, x0, x1, y0 as int, y1 as int, i, k);
}

proof fn lemma_box_order<T>(
    f: spec_fn(u32, u32) -> Option<T>,
    size: u32,
    x0: u32,
    x1: u32,
    y0: int,
    y1: int,
    i: int,
    k: int,
)
    requires
        size * size <= u32::MAX,
        x1 <= size,
        0 <= y0,
        y1 <= size,
        0 <= k < box_found(f, size, x0 as int, x1 as int, y0, y1).len(),
    ensures
        0 <= i < k ==> box_found(f, size, x0 as int, x1 as int, y0, y1)[i].0 < box_found(
            f,
            size,
            x0 as int,
            x1 as int,
            y0,
            y1,
        )[k].0,
        box_found(f, size, x0 as int, x1 as int, y0, y1)[k].0 < y1 * size,
    decreases y1 - y0,
{
    if y1 > y0 {
        let above = box_found(f, size, x0 as int, x1 as int, y0, y1 - 1);
        let row = row_found(f, size, x0 as int, x1 as int, y1 - 1);
        let all = box_found(f, size, x0 as int, x1 as int, y0, y1);
        let last = y1 - 1;
        assert(0 <= last * size && last * size + size <= size * size && (last + 1) * size == last
            * size + size) by (nonlinear_arith)
            requires
                0 <= last < size,
        ;
        if k < above.len() {
            lemma_box_order(f, size, x0, x1, y0, last, i, k);
        } else {
            lemma_row_has(f, size, x0 as int, x1 as int, last, 0, k - above.len());
            assert(all[k] == row[k - above.len()]);
            if 0 <= i < above.len() {
                lemma_box_order(f, size, x0, x1, y0, last, 0, i);
            } else if 0 <= i < k {
                assert(all[i] == row[i - above.len()]);
            }
        }
    }
}

/// Going around a triangle: each corner leads to the next of the same triangle, and after
/// three steps to itself.
pub proof fn law_corners_go_around(h: int)
    requires
        0 <= h,
    ensures
        next_slot(h) / 3 == h / 3,
        next_slot(h) != h,
        next_slot(next_slot(h)) != h,
        next_slot(next_slot(next_slot(h))) == h,
        h % 3 == 0 ==> next_slot(h) == h + 1 && next_slot(h + 1) == h + 2 && next_slot(h + 2) == h,
{
}

/// The four bytes of a number make it up again, and the two orders are each other's reverse.
pub proof fn law_bytes_make_up_the_number(xs: Seq<u32>, i: int)
    requires
        0 <= i < xs.len(),
    ensures
        ({
            let b = low_first(xs);
            &&& b.len() == 4 * xs.len()
            &&& b[4 * i] + 256 * b[4 * i + 1] + 65536 * b[4 * i + 2] + 16777216 * b[4 * i + 3]
                == xs[i]
        }),
        ({
            let b = high_first(xs);
            &&& b.len() == 4 * xs.len()
            &&& b[4 * i + 3] + 256 * b[4 * i + 2] + 65536 * b[4 * i + 1] + 16777216 * b[4 * i]
                == xs[i]
        }),
{
    let x = xs[i];
    assert((4 * i) / 4 == i && (4 * i) % 4 == 0);
    assert((4 * i + 1) / 4 == i && (4 * i + 1) % 4 == 1);
    assert((4 * i + 2) / 4 == i && (4 * i + 2) % 4 == 2);
    assert((4 * i + 3) / 4 == i && (4 * i + 3) % 4 == 3);
    assert(byte_of(x, 0) + 256 * byte_of(x, 1) + 65536 * byte_of(x, 2) + 16777216 * byte_of(x, 3)
        == x);
}

/// The pick of the greatest is over the floor, no other is greater, and none before it is as
/// great; the pick of the least likewise.
pub proof fn law_picks_are_the_first_of_their_kind(
    keys: Seq<Option<u32>>,
    floor: u32,
    i: int,
    j: int,
)
    requires
        0 <= j < keys.len(),
        keys[j] is Some,
    ensures
        is_first_greatest(keys, floor, i) ==> 0 <= i < keys.len() && keys[i] is Some && keys[i]->0
            > floor && keys[i]->0 >= keys[j]->0 && (keys[j]->0 == keys[i]->0 ==> i <= j),
        is_first_least(keys, i) ==> 0 <= i < keys.len() && keys[i] is Some && keys[i]->0
            <= keys[j]->0 && (keys[j]->0 == keys[i]->0 ==> i <= j),
{
}

/// No two points are farther apart than the diameter, and no earlier pair is as far.
pub proof fn law_the_diameter_is_the_first_farthest_pair(
    n: int,
    f: spec_fn(usize, usize) -> u32,
    i: usize,
    j: usize,
    a: usize,
    b: usize,
)
    requires
        is_diameter(n, f, i, j),
        a < b < n,
    ensures
        i < j < n,
        f(i, j) > 0,
        f(a, b) <= f(i, j),
        f(a, b) == f(i, j) ==> i < a || (i == a && j <= b),
{
}

} // verus!
