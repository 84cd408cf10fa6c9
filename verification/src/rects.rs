//! Rectangles of texels, the order of texels in an image, and simple images.

use crate::renderer::clamp_u32;
use crate::texture::{
    checker_shade, grown_spec, image_at, is_bounding, is_refreshed, is_region_of, is_restored,
    max_u32, min_u32, place_among, region_at, texel_in, TexRect,
};
use vstd::prelude::*;

verus! {

/// The lesser and the greater of two numbers, and a number kept between two others.
pub proof fn law_least_greatest_and_between(a: u32, b: u32, lo: u32, hi: u32)
    ensures
        min_u32(a, b) <= a && min_u32(a, b) <= b,
        min_u32(a, b) == a || min_u32(a, b) == b,
        max_u32(a, b) >= a && max_u32(a, b) >= b,
        max_u32(a, b) == a || max_u32(a, b) == b,
        lo <= hi ==> lo <= clamp_u32(a, lo, hi) <= hi,
        lo <= a <= hi ==> clamp_u32(a, lo, hi) == a,
        lo <= hi && a > hi ==> clamp_u32(a, lo, hi) == hi,
        lo <= hi && a < lo ==> clamp_u32(a, lo, hi) == lo,
{
}

/// A rectangle holds the columns from its left edge up to its right one, which is the first
/// beyond it, and the rows likewise.
pub proof fn law_a_rectangle_holds_its_texels(r: TexRect, x: int, y: int)
    ensures
        r.has(x, y) <==> r.x0 <= x && x < r.x1 && r.y0 <= y && y < r.y1,
        r.wf() ==> r.width_spec() == r.x1 - r.x0 && r.height_spec() == r.y1 - r.y0,
        r.wf() ==> r.width_spec() >= 0 && r.height_spec() >= 0,
        forall|w: int, h: int|
            #![trigger r.within(w, h)]
            r.within(w, h) && r.has(x, y) ==> 0 <= x < w && 0 <= y < h,
{
}

/// The union of two rectangles holds both, and no smaller one does: each edge is an edge of
/// one of them.
pub proof fn law_a_union_is_the_least_around_both(a: TexRect, b: TexRect, x: int, y: int)
    ensures
        a.has(x, y) || b.has(x, y) ==> a.union_spec(b).has(x, y),
        a.union_spec(b).x0 == a.x0 || a.union_spec(b).x0 == b.x0,
        a.union_spec(b).y0 == a.y0 || a.union_spec(b).y0 == b.y0,
        a.union_spec(b).x1 == a.x1 || a.union_spec(b).x1 == b.x1,
        a.union_spec(b).y1 == a.y1 || a.union_spec(b).y1 == b.y1,
        a.union_spec(b) == b.union_spec(a),
        a.union_spec(a) == a,
        grown_spec(None, a) == a,
        grown_spec(Some(b), a) == b.union_spec(a),
{
}

/// A grown rectangle holds what lies in the image and at most `pad` columns and rows away.
pub proof fn law_a_grown_rectangle_reaches_so_far(r: TexRect, pad: u32, size: u32, x: int, y: int)
    requires
        r.within(size as int, size as int),
    ensures
        r.expanded_spec(pad, size).has(x, y) <==> 0 <= x < size && 0 <= y < size && r.x0 - pad <= x
            < r.x1 + pad && r.y0 - pad <= y < r.y1 + pad,
        r.expanded_spec(pad, size).within(size as int, size as int),
        r.expanded_spec(0, size) == r,
{
}

/// Texels follow each other row by row from the top, four bytes each; in a packed copy of a
/// rectangle they do so within the rectangle.
pub proof fn law_texels_are_stored_by_rows(px: Seq<u8>, w: int, r: TexRect, x: int, y: int, c: int)
    ensures
        image_at(px, w, x, y, c) == px[4 * (w * y + x) + c],
        region_at(px, r, x, y, c) == px[4 * ((r.x1 - r.x0) * (y - r.y0) + (x - r.x0)) + c],
        forall|t: int|
            #![trigger texel_in(r, t, w)]
            texel_in(r, t, w) <==> r.x0 <= t % w < r.x1 && r.y0 <= t / w < r.y1,
{
    assert((y * w + x) * 4 + c == 4 * (w * y + x) + c) by (nonlinear_arith);
    let rw = r.x1 - r.x0;
    assert(((y - r.y0) * rw + (x - r.x0)) * 4 + c == 4 * (rw * (y - r.y0) + (x - r.x0)) + c)
        by (nonlinear_arith);
}

/// A partial refresh takes the recomputed texels of the rectangle to show and no others:
/// every texel outside it keeps its bytes, whatever was recomputed there.
pub proof fn law_a_partial_refresh_stays_in_its_rectangle(
    before: Seq<u8>,
    after: Seq<u8>,
    w: int,
    upload: TexRect,
    proc: TexRect,
    recomputed: Seq<u8>,
    x: int,
    y: int,
    c: int,
)
    requires
        is_refreshed(before, after, w, upload, proc, recomputed),
        0 <= x < w,
        0 <= y < w,
        0 <= c < 4,
    ensures
        !(upload.x0 <= x < upload.x1 && upload.y0 <= y < upload.y1) ==> after[(y * w + x) * 4 + c]
            == before[(y * w + x) * 4 + c],
        upload.has(x, y) && proc.has(x, y) ==> after[(y * w + x) * 4 + c] == recomputed[((y
            - proc.y0) * (proc.x1 - proc.x0) + (x - proc.x0)) * 4 + c],
{
    assert(image_at(after, w, x, y, c) == if proc.has(x, y) && upload.has(x, y) {
        region_at(recomputed, proc, x, y, c)
    } else {
        image_at(before, w, x, y, c)
    });
}

/// A packed copy of a rectangle holds its texels row by row, and putting a margin back takes
/// the copy's bytes outside the rectangle to show and no others.
pub proof fn law_copies_and_margins(
    px: Seq<u8>,
    copy: Seq<u8>,
    after: Seq<u8>,
    w: int,
    proc: TexRect,
    upload: TexRect,
    x: int,
    y: int,
    c: int,
)
    requires
        is_region_of(px, w, proc, copy),
        is_restored(px, copy, w, proc, upload, after),
        0 <= x < w,
        0 <= y,
        0 <= c < 4,
        (y * w + x) * 4 + c < px.len(),
    ensures
        proc.has(x, y) ==> copy[((y - proc.y0) * (proc.x1 - proc.x0) + (x - proc.x0)) * 4 + c]
            == px[(y * w + x) * 4 + c],
        copy.len() == (proc.x1 - proc.x0) * (proc.y1 - proc.y0) * 4,
        after.len() == px.len(),
        after[(y * w + x) * 4 + c] == px[(y * w + x) * 4 + c],
{
    if proc.has(x, y) {
        assert(region_at(copy, proc, x, y, c) == image_at(px, w, x, y, c));
    }
    assert(image_at(after, w, x, y, c) == if proc.has(x, y) && !upload.has(x, y) {
        region_at(copy, proc, x, y, c)
    } else {
        image_at(px, w, x, y, c)
    });
}

/// The bounding box of texels holds every one of them, and a box that holds them all holds
/// the bounding box.
pub proof fn law_a_bounding_box_is_tight(
    texels: Seq<usize>,
    size: int,
    r: TexRect,
    other: TexRect,
)
    requires
        size > 0,
        is_bounding(texels, size, Some(r)),
        forall|i: int|
            0 <= i < texels.len() ==> #[trigger] texel_in(other, texels[i] as int, size),
    ensures
        texels.len() > 0,
        other.x0 <= r.x0 && r.x1 <= other.x1 && other.y0 <= r.y0 && r.y1 <= other.y1,
        forall|i: int|
            0 <= i < texels.len() ==> r.has(
                (#[trigger] texels[i]) as int % size,
                texels[i] as int / size,
            ),
{
    let n = texels.len() as int;
    let a = choose|i: int| 0 <= i < n && (#[trigger] texels[i]) as int % size == r.x0;
    let b = choose|i: int| 0 <= i < n && (#[trigger] texels[i]) as int % size + 1 == r.x1;
    let c = choose|i: int| 0 <= i < n && (#[trigger] texels[i]) as int / size == r.y0;
    let d = choose|i: int| 0 <= i < n && (#[trigger] texels[i]) as int / size + 1 == r.y1;
    assert(texel_in(other, texels[a] as int, size) && texel_in(other, texels[b] as int, size));
    assert(texel_in(other, texels[c] as int, size) && texel_in(other, texels[d] as int, size));
    assert forall|i: int| 0 <= i < n implies r.has(
        (#[trigger] texels[i]) as int % size,
        texels[i] as int / size,
    ) by {
        assert(texel_in(r, texels[i] as int, size));
    }
}

/// The checkerboard has squares of eight texels, light from the corner on, and the next
/// square in a row or a column has the other shade.
pub proof fn law_the_checkerboard_alternates(x: int, y: int)
    requires
        0 <= x,
        0 <= y,
    ensures
        checker_shade(x, y) == 230 || checker_shade(x, y) == 200,
        x < 8 && y < 8 ==> checker_shade(x, y) == 230,
        checker_shade(x + 8, y) != checker_shade(x, y),
        checker_shade(x, y + 8) != checker_shade(x, y),
        x % 8 < 7 ==> checker_shade(x + 1, y) == checker_shade(x, y),
        y % 8 < 7 ==> checker_shade(x, y + 1) == checker_shade(x, y),
{
}

/// A place among `n` falls on the place among `w` that it lies in when both are spread over
/// the same length; at the same number it is its own place.
pub proof fn law_places_keep_their_proportion(x: int, n: int, w: int)
    requires
        0 <= x < n,
        0 < w,
    ensures
        0 <= place_among(x, n, w) < w,
        place_among(x, n, w) * n <= x * w < (place_among(x, n, w) + 1) * n,
        n == w ==> place_among(x, n, w) == x,
{
    let p = place_among(x, n, w);
    vstd::arithmetic::div_mod::lemma_fundamental_div_mod(x * w, n);
    assert(0 <= x * w) by (nonlinear_arith)
        requires
            0 <= x,
            0 < w,
    ;
    assert(p * n <= x * w && x * w < (p + 1) * n) by (nonlinear_arith)
        requires
            x * w == n * p + (x * w) % n,
            0 <= (x * w) % n < n,
    ;
    assert(0 <= p < w) by (nonlinear_arith)
        requires
            p * n <= x * w,
            x * w < (p + 1) * n,
            0 <= x < n,
            0 < w,
    ;
    if n == w {
        assert(p == x) by (nonlinear_arith)
            requires
                p * n <= x * n,
                x * n < (p + 1) * n,
                0 < n,
        ;
    }
}

} // verus!
