//! The hover ghost: a preview of the dab a click would lay, shown over the committed image
//! without touching it.

use crate::fill::{kept, retain_facet, FillMap};
use crate::renderer::{Display, PaintTarget, Renderer, PREVIEW_MAX_TEXELS};
use crate::stroke::Splat;
use crate::texture::{
    bounding_rect, copy_region, is_bounding, is_image, is_region_of, texel_in, TexRect,
};
use vstd::prelude::*;

verus! {

/// What to show after the ghost was brought up to date, as rectangles with packed texels.
#[derive(Debug)]
pub struct GhostPlan {
    /// The committed texels, where a ghost was.
    pub revert: Option<(TexRect, Vec<u8>)>,
    /// The new ghost.
    pub show: Option<(TexRect, Vec<u8>)>,
}

/// The answers of `mix` all agree with the function `f` of shown byte, ghost byte and
/// coverage.
pub open spec fn mix_agrees<M: Fn(u8, u8, u32) -> u8>(
    mix: M,
    f: spec_fn(u8, u8, u32) -> u8,
) -> bool {
    forall|d: u8, s: u8, a: u32, out: u8| #[trigger] mix.ensures((d, s, a), out) ==> out == f(
        d,
        s,
        a,
    )
}

/// Where texel `t` starts in a buffer packed over `rect`.
pub open spec fn packed_at(rect: TexRect, t: int, size: int) -> int {
    ((t / size - rect.y0) * rect.width_spec() + (t % size - rect.x0)) * 4
}

/// One splat mixed into a packed buffer: its three colour bytes, the alpha stays.
pub open spec fn splat_mixed(
    px: Seq<u8>,
    s: Splat,
    rect: TexRect,
    size: int,
    f: spec_fn(u8, u8, u32) -> u8,
) -> Seq<u8> {
    let i = packed_at(rect, s.texel as int, size);
    px.update(i, f(px[i], s.src[0], s.cov)).update(i + 1, f(px[i + 1], s.src[1], s.cov)).update(
        i + 2,
        f(px[i + 2], s.src[2], s.cov),
    )
}

/// The first `k` splats mixed into a packed buffer, one after the other.
pub open spec fn all_mixed(
    px: Seq<u8>,
    splats: Seq<Splat>,
    rect: TexRect,
    size: int,
    f: spec_fn(u8, u8, u32) -> u8,
    k: int,
) -> Seq<u8>
    decreases k,
{
    if k <= 0 {
        px
    } else {
        splat_mixed(all_mixed(px, splats, rect, size, f, k - 1), splats[k - 1], rect, size, f)
    }
}

/// A packed buffer shows the ghost of the splats over the image.
pub open spec fn is_ghost<M: Fn(u8, u8, u32) -> u8>(
    image: Seq<u8>,
    size: int,
    splats: Seq<Splat>,
    rect: TexRect,
    out: Seq<u8>,
    mix: M,
) -> bool {
    exists|base: Seq<u8>| #[trigger]
        is_region_of(image, size, rect, base) && base.len() == out.len() && forall|
            f: spec_fn(u8, u8, u32) -> u8,
        |
            #[trigger] mix_agrees(mix, f) ==> out == all_mixed(
                base,
                splats,
                rect,
                size,
                f,
                splats.len() as int,
            )
}

/// The texels of splats.
pub open spec fn texels_of(splats: Seq<Splat>) -> Seq<usize> {
    splats.map_values(|s: Splat| s.texel)
}

/// The splats of a ghost: with the face lock on, those on the facet under the cursor.
pub open spec fn ghost_splats(
    locked: bool,
    map: Option<FillMap>,
    tri: u32,
    splats: Seq<Splat>,
) -> Seq<Splat> {
    if locked && map is Some && (map->0).facet_spec(tri) is Some {
        kept(
            splats,
            |s: Splat| (map->0).on_facet(s.texel as int, (map->0).facet_spec(tri)->0 as i32),
        )
    } else {
        splats
    }
}

pub(crate) fn same_key(a: &Option<Vec<u32>>, b: &Option<Vec<u32>>) -> (same: bool)
    ensures
        same == key_eq(*a, *b),
{
    match (a, b) {
        (None, None) => true,
        (Some(x), Some(y)) => {
            if x.len() != y.len() {
                return false;
            }
            let mut i: usize = 0;
            while i < x.len()
                invariant
                    *a == Some(*x),
                    *b == Some(*y),
                    x.len() == y.len(),
                    i <= x.len(),
                    forall|k: int| 0 <= k < i ==> #[trigger] x@[k] == y@[k],
                decreases x.len() - i,
            {
                if x[i] != y[i] {
                    return false;
                }
                i += 1;
            }
            assert(x@ =~= y@);
            true
        },
        _ => false,
    }
}

/// Two keys stand for the same inputs.
pub open spec fn key_eq(a: Option<Vec<u32>>, b: Option<Vec<u32>>) -> bool {
    match (a, b) {
        (None, None) => true,
        (Some(x), Some(y)) => x@ == y@,
        _ => false,
    }
}

impl<F: Copy> Renderer<F> {
    /// Ends the ghost that is shown, if one is. Returns its rectangle and the texels to
    /// show there instead.
    fn revert_preview(&mut self) -> (r: Option<(TexRect, Vec<u8>)>)
        requires
            old(self).shown(),
            old(self).display.preview_rect matches Some(p) ==> p.within(
                old(self).tex_size as int,
                old(self).tex_size as int,
            ),
        ensures
            r is Some <==> old(self).display.preview_rect is Some,
            r matches Some(v) ==> Some(v.0) == old(self).display.preview_rect && is_region_of(
                old(self).display.buf@,
                old(self).tex_size as int,
                v.0,
                v.1@,
            ),
            *final(self) == (Renderer {
                display: Display { preview_rect: None, ..old(self).display },
                ..*old(self)
            }),
    {
        match self.display.preview_rect.take() {
            Some(rect) => {
                assert(is_image(self.display.buf@, self.tex_size as int, self.tex_size as int));
                let packed = copy_region(&self.display.buf, self.tex_size, rect);
                Some((rect, packed))
            },
            None => None,
        }
    }

    /// Whether a ghost may be shown: no stroke is running, the brush lays colour, and it
    /// does not erase.
    pub fn preview_allowed(&self, erase: bool) -> (b: bool)
        ensures
            b == (self.pending is None && !self.brush.on_mask() && !erase),
    {
        self.pending.is_none() && self.brush.target == PaintTarget::Color && !erase
    }

    /// Brings the ghost up to date. `key` stands for everything it depends on, without one
    /// there is no cursor; while the key stays the same nothing is done, but without a
    /// cursor no ghost is left. Else the shown ghost is reverted, and a new one is made from
    /// `splats`, the dab a click would lay on triangle `hit`, unless ghosts are not allowed,
    /// nothing is hit, or its footprint is too large. The document and the mirror of the
    /// committed image stay untouched.
    pub fn set_brush_preview<M: Fn(u8, u8, u32) -> u8>(
        &mut self,
        key: Option<Vec<u32>>,
        erase: bool,
        hit: Option<u32>,
        footprint: Option<TexRect>,
        splats: Vec<Splat>,
        mix: &M,
    ) -> (plan: GhostPlan)
        requires
            old(self).shown(),
            old(self).tex_size > 0,
            old(self).display.preview_rect matches Some(p) ==> p.within(
                old(self).tex_size as int,
                old(self).tex_size as int,
            ),
            old(self).lock.on && hit is Some ==> (old(self).scene.fill_map matches Some(map)
                && map.wf()),
            footprint matches Some(r) ==> r.wf(),
            forall|i: int|
                0 <= i < splats.len() ==> (#[trigger] splats@[i]).texel < old(self).tex_size
                    * old(self).tex_size,
            forall|d: u8, s: u8, a: u32| #[trigger] mix.requires((d, s, a)),
        ensures
            ({
                let same = key_eq(key, old(self).display.preview_key) && (key is Some
                    || old(self).display.preview_rect is None);
                let laid = ghost_splats(
                    old(self).lock.on,
                    old(self).scene.fill_map,
                    hit->0,
                    splats@,
                );
                let shows = !same && key is Some && old(self).pending is None
                    && !old(self).brush.on_mask() && !erase && hit is Some && !too_large(footprint)
                    && laid.len() > 0;
                &&& same ==> plan.revert is None && *final(self) == *old(self)
                &&& !same ==> (plan.revert is Some <==> old(self).display.preview_rect is Some)
                &&& plan.revert matches Some(v) ==> Some(v.0) == old(self).display.preview_rect
                    && is_region_of(
                    old(self).display.buf@,
                    old(self).tex_size as int,
                    v.0,
                    v.1@,
                )
                &&& plan.show is Some <==> shows
                &&& plan.show matches Some(v) ==> is_bounding(
                    texels_of(laid),
                    old(self).tex_size as int,
                    Some(v.0),
                ) && v.0.within(old(self).tex_size as int, old(self).tex_size as int) && is_ghost(
                    old(self).display.buf@,
                    old(self).tex_size as int,
                    laid,
                    v.0,
                    v.1@,
                    *mix,
                )
                &&& key is None ==> final(self).display.preview_rect is None && (plan.revert is Some
                    <==> old(self).display.preview_rect is Some)
                &&& !same ==> *final(self) == (Renderer {
                    display: Display {
                        preview_key: key,
                        preview_rect: match plan.show {
                            Some(v) => Some(v.0),
                            None => None,
                        },
                        ..old(self).display
                    },
                    ..*old(self)
                })
            }),
    {
        if same_key(&key, &self.display.preview_key) && (key.is_some()
            || self.display.preview_rect.is_none()) {
            return GhostPlan { revert: None, show: None };
        }
        let cursor: bool = key.is_some();
        self.display.preview_key = key;
        let revert = self.revert_preview();
        let tri: u32 = match hit {
            Some(t) => t,
            None => {
                return GhostPlan { revert, show: None };
            },
        };
        if !cursor || !self.preview_allowed(erase) || preview_too_large(footprint) {
            return GhostPlan { revert, show: None };
        }
        let mut laid = splats;
        if self.lock.on {
            match &self.scene.fill_map {
                Some(map) => {
                    match map.facet_for_tri(tri) {
                        Some(f) => {
                            proof {
                                crate::fill::law_locked_paint_stays_on_the_face(
                                    splats@,
                                    |s: Splat| map.on_facet(s.texel as int, f as i32),
                                );
                            }
                            retain_facet(map, f as i32, &mut laid);
                        },
                        None => {},
                    }
                },
                None => {},
            }
        }
        assert(laid@ == ghost_splats(self.lock.on, self.scene.fill_map, tri, splats@));
        assert forall|i: int| 0 <= i < laid.len() implies (#[trigger] laid@[i]).texel
            < self.tex_size * self.tex_size by {
            assert(splats@.contains(laid@[i]));
        }
        let ghost_px = mix_ghost(&self.display.buf, self.tex_size, &laid, mix);
        match &ghost_px {
            Some(v) => {
                self.display.preview_rect = Some(v.0);
            },
            None => {},
        }
        GhostPlan { revert, show: ghost_px }
    }
}

/// The ghost of splats over an image, packed over their bounding box.
fn mix_ghost<M: Fn(u8, u8, u32) -> u8>(
    image: &Vec<u8>,
    size: u32,
    splats: &Vec<Splat>,
    mix: &M,
) -> (r: Option<(TexRect, Vec<u8>)>)
    requires
        size > 0,
        is_image(image@, size as int, size as int),
        forall|i: int|
            0 <= i < splats.len() ==> (#[trigger] splats@[i]).texel < size * size,
        forall|d: u8, s: u8, a: u32| #[trigger] mix.requires((d, s, a)),
    ensures
        r is Some <==> splats.len() > 0,
        r matches Some(v) ==> is_bounding(texels_of(splats@), size as int, Some(v.0))
            && v.0.within(size as int, size as int) && is_ghost(
            image@,
            size as int,
            splats@,
            v.0,
            v.1@,
            *mix,
        ),
{
    let mut texels: Vec<usize> = Vec::new();
    let mut k: usize = 0;
    while k < splats.len()
        invariant
            k <= splats.len(),
            texels.len() == k,
            forall|i: int| 0 <= i < k ==> #[trigger] texels@[i] == splats@[i].texel,
        decreases splats.len() - k,
    {
        texels.push(splats[k].texel);
        k += 1;
    }
    assert(texels@ =~= texels_of(splats@));
    let rect: TexRect = match bounding_rect(&texels, size) {
        Some(r) => r,
        None => {
            return None;
        },
    };
    let mut packed = copy_region(image, size, rect);
    let ghost base = packed@;
    let ghost n = size as int;
    k = 0;
    while k < splats.len()
        invariant
            k <= splats.len(),
            size > 0,
            n == size,
            rect.within(n, n),
            is_image(base, rect.width_spec(), rect.height_spec()),
            packed.len() == base.len(),
            texels@ == texels_of(splats@),
            is_bounding(texels@, n, Some(rect)),
            forall|d: u8, s: u8, a: u32| #[trigger] mix.requires((d, s, a)),
            forall|f: spec_fn(u8, u8, u32) -> u8| #[trigger]
                mix_agrees(*mix, f) ==> packed@ == all_mixed(base, splats@, rect, n, f, k as int),
        decreases splats.len() - k,
    {
        let s: Splat = splats[k];
        assert(texels@[k as int] == s.texel);
        assert(texel_in(rect, s.texel as int, n));
        let i: usize = packed_index(rect, s.texel, size);
        let ghost before = packed@;
        let r0: u8 = (*mix)(packed[i], s.src[0], s.cov);
        let r1: u8 = (*mix)(packed[i + 1], s.src[1], s.cov);
        let r2: u8 = (*mix)(packed[i + 2], s.src[2], s.cov);
        packed.set(i, r0);
        packed.set(i + 1, r1);
        packed.set(i + 2, r2);
        proof {
            assert forall|f: spec_fn(u8, u8, u32) -> u8| #[trigger] mix_agrees(*mix, f) implies packed@
                == all_mixed(base, splats@, rect, n, f, k + 1) by {
                assert(packed@ =~= splat_mixed(before, s, rect, n, f));
            }
        }
        k += 1;
    }
    assert(is_region_of(image@, n, rect, base));
    Some((rect, packed))
}

/// A footprint is too large for a ghost.
pub open spec fn too_large(rect: Option<TexRect>) -> bool {
    rect matches Some(r) && r.width_spec() * r.height_spec() > PREVIEW_MAX_TEXELS
}

/// Whether a footprint is too large for a ghost.
pub fn preview_too_large(rect: Option<TexRect>) -> (b: bool)
    requires
        rect matches Some(r) ==> r.wf(),
    ensures
        b == too_large(rect),
{
    match rect {
        Some(r) => {
            let w: u64 = r.width() as u64;
            let h: u64 = r.height() as u64;
            assert(w * h <= 0xffff_ffff * 0xffff_ffff) by (nonlinear_arith)
                requires
                    w <= 0xffff_ffff,
                    h <= 0xffff_ffff,
            ;
            w * h > PREVIEW_MAX_TEXELS
        },
        None => false,
    }
}

/// Where texel `t` starts in a buffer packed over `rect`.
fn packed_index(rect: TexRect, t: usize, size: u32) -> (i: usize)
    requires
        size > 0,
        rect.within(size as int, size as int),
        rect.width_spec() * rect.height_spec() * 4 <= usize::MAX,
        texel_in(rect, t as int, size as int),
    ensures
        i == packed_at(rect, t as int, size as int),
        i + 4 <= rect.width_spec() * rect.height_spec() * 4,
{
    let x: usize = t % size as usize - rect.x0 as usize;
    let y: usize = t / size as usize - rect.y0 as usize;
    let w: usize = rect.width() as usize;
    proof {
        crate::texture::lemma_in_image(
            x as int,
            y as int,
            rect.width_spec(),
            rect.height_spec(),
        );
        assert(0 <= y * w) by (nonlinear_arith)
            requires
                0 <= y,
                0 <= w,
        ;
    }
    (y * w + x) * 4
}

} // verus!
