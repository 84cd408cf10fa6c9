//! Fill tools, face locking and the outline of a face, over the island and facet maps.

use crate::surface::{neighbors_wf, Adjacency};
use crate::stroke::Splat;
use vstd::prelude::*;

verus! {

/// Which UV island and which flat facet every texel and triangle belongs to; -1 marks a
/// texel that no triangle covers.
#[derive(Debug)]
pub struct FillMap {
    pub size: u32,
    pub texel_island: Vec<i32>,
    pub texel_facet: Vec<i32>,
    pub island_of_tri: Vec<u32>,
    pub facet_of_tri: Vec<u32>,
}

impl FillMap {
    /// The texel maps are for one square image, and facet numbers fit the texel map.
    pub open spec fn wf(&self) -> bool {
        &&& self.size > 0
        &&& self.texel_island.len() == self.size * self.size
        &&& self.texel_facet.len() == self.size * self.size
        &&& forall|t: int|
            0 <= t < self.facet_of_tri.len() ==> (#[trigger] self.facet_of_tri@[t]) <= i32::MAX
        &&& forall|t: int|
            0 <= t < self.island_of_tri.len() ==> (#[trigger] self.island_of_tri@[t]) <= i32::MAX
    }

    pub open spec fn facet_spec(&self, tri: u32) -> Option<u32> {
        if tri < self.facet_of_tri.len() {
            Some(self.facet_of_tri@[tri as int])
        } else {
            None
        }
    }

    /// Texel `t` lies on facet `f`.
    pub open spec fn on_facet(&self, t: int, f: i32) -> bool {
        0 <= t < self.texel_facet.len() && self.texel_facet@[t] == f
    }

    pub open spec fn island_spec(&self, tri: u32) -> Option<u32> {
        if tri < self.island_of_tri.len() {
            Some(self.island_of_tri@[tri as int])
        } else {
            None
        }
    }

    /// The facet of a triangle, if it is one.
    pub fn facet_for_tri(&self, tri: u32) -> (f: Option<u32>)
        ensures
            f == self.facet_spec(tri),
    {
        if (tri as usize) < self.facet_of_tri.len() {
            Some(self.facet_of_tri[tri as usize])
        } else {
            None
        }
    }

    /// The UV island of a triangle, if it is one.
    pub fn island_for_tri(&self, tri: u32) -> (f: Option<u32>)
        ensures
            f == self.island_spec(tri),
    {
        if (tri as usize) < self.island_of_tri.len() {
            Some(self.island_of_tri[tri as usize])
        } else {
            None
        }
    }

    /// Which texels a triangle covers.
    pub fn covered(&self) -> (m: Vec<bool>)
        ensures
            m.len() == self.texel_island.len(),
            forall|t: int| 0 <= t < m.len() ==> #[trigger] m@[t] == (self.texel_island@[t] >= 0),
    {
        let mut m: Vec<bool> = Vec::new();
        let mut t: usize = 0;
        while t < self.texel_island.len()
            invariant
                t <= self.texel_island.len(),
                m.len() == t,
                forall|k: int| 0 <= k < t ==> #[trigger] m@[k] == (self.texel_island@[k] >= 0),
            decreases self.texel_island.len() - t,
        {
            m.push(self.texel_island[t] >= 0);
            t += 1;
        }
        m
    }
}

/// Drops every splat whose texel is not on facet `f`.
pub fn retain_facet(map: &FillMap, f: i32, splats: &mut Vec<Splat>)
    ensures
        final(splats)@ == kept(old(splats)@, |s: Splat| map.on_facet(s.texel as int, f)),
{
    let ghost on = |s: Splat| map.on_facet(s.texel as int, f);
    let mut out: Vec<Splat> = Vec::new();
    let mut i: usize = 0;
    while i < splats.len()
        invariant
            on == (|s: Splat| map.on_facet(s.texel as int, f)),
            i <= splats.len(),
            out@ == kept(splats@.take(i as int), on),
        decreases splats.len() - i,
    {
        let s: Splat = splats[i];
        assert(splats@.take(i + 1).drop_last() =~= splats@.take(i as int));
        if s.texel < map.texel_facet.len() && map.texel_facet[s.texel] == f {
            out.push(s);
        }
        i += 1;
    }
    assert(splats@.take(i as int) =~= splats@);
    *splats = out;
}

/// Which entries of a map hold the value.
pub fn texels_with(map: &Vec<i32>, value: i32) -> (m: Vec<bool>)
    ensures
        m.len() == map.len(),
        forall|t: int| 0 <= t < m.len() ==> #[trigger] m@[t] == (map@[t] == value),
{
    let mut m: Vec<bool> = Vec::new();
    let mut t: usize = 0;
    while t < map.len()
        invariant
            t <= map.len(),
            m.len() == t,
            forall|k: int| 0 <= k < t ==> #[trigger] m@[k] == (map@[k] == value),
        decreases map.len() - t,
    {
        m.push(map[t] == value);
        t += 1;
    }
    m
}

/// Texel `t` of an image `w` wide has a neighbour left, right, above or below in `keep`.
pub open spec fn beside(keep: Seq<bool>, w: int, t: int) -> bool {
    ||| t % w > 0 && keep[t - 1]
    ||| t % w + 1 < w && keep[t + 1]
    ||| t >= w && keep[t - w]
    ||| t + w < keep.len() && keep[t + w]
}

/// A fill colours texel `t`: it is to be filled, or no triangle covers it and it lies
/// beside one that is.
pub open spec fn filled(keep: Seq<bool>, covered: Seq<bool>, w: int, t: int) -> bool {
    keep[t] || (!covered[t] && beside(keep, w, t))
}

/// Colours the texels of `keep`, and one ring of uncovered texels around them so that an
/// island edge reads solid. The ring never enters a covered texel, so a fill does not
/// bleed into a neighbouring island.
pub fn fill_texels(
    px: &mut Vec<u8>,
    size: u32,
    rgba: [u8; 4],
    keep: &Vec<bool>,
    covered: &Vec<bool>,
)
    requires
        size > 0,
        keep.len() == size * size,
        covered.len() == size * size,
        old(px).len() == 4 * (size * size),
    ensures
        final(px).len() == old(px).len(),
        forall|i: int|
            0 <= i < old(px).len() ==> #[trigger] final(px)@[i] == if filled(
                keep@,
                covered@,
                size as int,
                i / 4,
            ) {
                rgba[i % 4]
            } else {
                old(px)@[i]
            },
{
    let n: usize = keep.len();
    let w: usize = size as usize;
    let ghost before = px@;
    let mut t: usize = 0;
    while t < n
        invariant
            n == keep.len() == covered.len(),
            n == size * size,
            w == size > 0,
            t <= n,
            before.len() == 4 * n,
            px.len() == 4 * n,
            forall|i: int|
                0 <= i < 4 * n ==> #[trigger] px@[i] == if i < 4 * t && filled(
                    keep@,
                    covered@,
                    w as int,
                    i / 4,
                ) {
                    rgba[i % 4]
                } else {
                    before[i]
                },
        decreases n - t,
    {
        proof {
            assert(w <= n) by (nonlinear_arith)
                requires
                    n == w * w,
                    w > 0,
            ;
            lemma_row_end(t as int, w as int, n as int);
        }
        let mut on: bool = keep[t];
        if !on && !covered[t] {
            let col: usize = t % w;
            on = (col > 0 && keep[t - 1]) || (col + 1 < w && keep[t + 1]) || (t >= w && keep[t
                - w]) || (n - t > w && keep[t + w]);
        }
        assert(on == filled(keep@, covered@, w as int, t as int));
        if on {
            let i: usize = 4 * t;
            px.set(i, rgba[0]);
            px.set(i + 1, rgba[1]);
            px.set(i + 2, rgba[2]);
            px.set(i + 3, rgba[3]);
        }
        t += 1;
    }
}

/// A texel that is not the last of its row has a right neighbour in the image.
proof fn lemma_row_end(t: int, w: int, n: int)
    requires
        0 <= t < n,
        n == w * w,
        w > 0,
    ensures
        t % w + 1 < w ==> t + 1 < n,
        t % w > 0 ==> t > 0,
{
    vstd::arithmetic::div_mod::lemma_fundamental_div_mod(t, w);
    if t == n - 1 && t % w + 1 < w {
        assert(w * w - 1 == (w - 1) * w + (w - 1)) by (nonlinear_arith);
        vstd::arithmetic::div_mod::lemma_fundamental_div_mod_converse(t, w, w - 1, w - 1);
    }
    if t == 0 {
        vstd::arithmetic::div_mod::lemma_small_mod(0, w as nat);
    }
}

/// A fill never changes a covered texel outside the region to fill: it stops at a seam.
pub proof fn law_fill_stops_at_seams(keep: Seq<bool>, covered: Seq<bool>, w: int, t: int)
    requires
        covered[t],
        !keep[t],
    ensures
        !filled(keep, covered, w, t),
{
}

/// The facets a stroke is confined to, once its first dab fixed them.
#[derive(Debug)]
pub struct FaceLock {
    pub on: bool,
    pub facets: Option<Vec<i32>>,
}

/// The facets of those triangles that have one, in order.
pub open spec fn facets_of(map: &FillMap, tris: Seq<u32>, k: int) -> Seq<i32>
    decreases k,
{
    if k <= 0 {
        Seq::empty()
    } else {
        match map.facet_spec(tris[k - 1]) {
            Some(f) => facets_of(map, tris, k - 1).push(f as i32),
            None => facets_of(map, tris, k - 1),
        }
    }
}

/// The items for which `on` holds, in order.
pub open spec fn kept<T>(items: Seq<T>, on: spec_fn(T) -> bool) -> Seq<T>
    decreases items.len(),
{
    if items.len() == 0 {
        Seq::empty()
    } else if on(items.last()) {
        kept(items.drop_last(), on).push(items.last())
    } else {
        kept(items.drop_last(), on)
    }
}

impl FaceLock {
    /// The lock confines painting: it is on and its first dab met a facet.
    pub open spec fn confines(&self) -> bool {
        self.on && self.facets is Some && (self.facets->0)@.len() > 0
    }

    /// Facet `f` may be painted.
    pub open spec fn admits(&self, f: i32) -> bool {
        (self.facets->0)@.contains(f)
    }

    fn admits_facet(&self, f: i32) -> (b: bool)
        requires
            self.facets is Some,
        ensures
            b == self.admits(f),
    {
        match &self.facets {
            Some(v) => has(v, f),
            None => false,
        }
    }

    fn is_confining(&self) -> (b: bool)
        ensures
            b == self.confines(),
    {
        match &self.facets {
            Some(v) => self.on && v.len() > 0,
            None => false,
        }
    }

    /// Fixes the locked facets from the triangles of the stroke's first dab: once set, or
    /// with the lock off, later dabs change nothing.
    pub fn ensure_stroke_lock(&mut self, map: &FillMap, tris: &Vec<u32>)
        requires
            map.wf(),
        ensures
            final(self).on == old(self).on,
            !old(self).on || old(self).facets is Some ==> final(self).facets == old(self).facets,
            old(self).on && old(self).facets is None ==> final(self).facets is Some && (
            final(self).facets->0)@ == facets_of(map, tris@, tris.len() as int),
    {
        if !self.on || self.facets.is_some() {
            return;
        }
        let mut facets: Vec<i32> = Vec::new();
        let mut k: usize = 0;
        while k < tris.len()
            invariant
                map.wf(),
                k <= tris.len(),
                facets@ == facets_of(map, tris@, k as int),
            decreases tris.len() - k,
        {
            match map.facet_for_tri(tris[k]) {
                Some(f) => {
                    facets.push(f as i32);
                },
                None => {},
            }
            k += 1;
        }
        self.facets = Some(facets);
    }

    /// Texel `t` lies on a locked facet.
    pub open spec fn texel_admitted(&self, map: &FillMap, t: int) -> bool {
        0 <= t < map.texel_facet.len() && self.admits(map.texel_facet@[t])
    }

    /// Drops every splat whose texel is not on a locked facet. Without a confining lock
    /// nothing is dropped.
    pub fn retain_locked(&self, map: &FillMap, splats: &mut Vec<Splat>)
        ensures
            final(splats)@ == if self.confines() {
                kept(old(splats)@, |s: Splat| self.texel_admitted(map, s.texel as int))
            } else {
                old(splats)@
            },
    {
        if !self.is_confining() {
            return;
        }
        let ghost on = |s: Splat| self.texel_admitted(map, s.texel as int);
        let mut out: Vec<Splat> = Vec::new();
        let mut i: usize = 0;
        while i < splats.len()
            invariant
                self.confines(),
                on == (|s: Splat| self.texel_admitted(map, s.texel as int)),
                i <= splats.len(),
                out@ == kept(splats@.take(i as int), on),
            decreases splats.len() - i,
        {
            let s: Splat = splats[i];
            let t: usize = s.texel;
            assert(splats@.take(i + 1).drop_last() =~= splats@.take(i as int));
            if t < map.texel_facet.len() && self.admits_facet(map.texel_facet[t]) {
                out.push(s);
            }
            i += 1;
        }
        assert(splats@.take(i as int) =~= splats@);
        *splats = out;
    }

    /// Triangle `f` lies on a locked facet.
    pub open spec fn face_admitted(&self, map: &FillMap, f: u32) -> bool {
        match map.facet_spec(f) {
            Some(c) => self.admits(c as i32),
            None => false,
        }
    }

    /// Drops every triangle that is not on a locked facet. Without a confining lock
    /// nothing is dropped.
    pub fn retain_locked_faces(&self, map: &FillMap, faces: &mut Vec<u32>)
        requires
            self.confines() ==> map.wf(),
        ensures
            final(faces)@ == if self.confines() {
                kept(old(faces)@, |f: u32| self.face_admitted(map, f))
            } else {
                old(faces)@
            },
    {
        if !self.is_confining() {
            return;
        }
        let ghost on = |f: u32| self.face_admitted(map, f);
        let mut out: Vec<u32> = Vec::new();
        let mut i: usize = 0;
        while i < faces.len()
            invariant
                map.wf(),
                self.confines(),
                on == (|f: u32| self.face_admitted(map, f)),
                i <= faces.len(),
                out@ == kept(faces@.take(i as int), on),
            decreases faces.len() - i,
        {
            let f: u32 = faces[i];
            assert(faces@.take(i + 1).drop_last() =~= faces@.take(i as int));
            let keep: bool = match map.facet_for_tri(f) {
                Some(c) => self.admits_facet(c as i32),
                None => false,
            };
            if keep {
                out.push(f);
            }
            i += 1;
        }
        assert(faces@.take(i as int) =~= faces@);
        *faces = out;
    }

    /// The facets to outline: those a running stroke is locked to, else the one under the
    /// cursor, if there is one. None while the lock is off.
    pub fn outline_target_facets(&self, in_stroke: bool, hovered: Option<u32>) -> (out: Vec<i32>)
        requires
            hovered matches Some(f) ==> f <= i32::MAX,
        ensures
            out@ == if !self.on {
                Seq::<i32>::empty()
            } else if in_stroke && self.confines() {
                (self.facets->0)@
            } else {
                match hovered {
                    Some(f) => seq![f as i32],
                    None => Seq::empty(),
                }
            },
    {
        let mut out: Vec<i32> = Vec::new();
        if !self.on {
            assert(out@ =~= Seq::<i32>::empty());
            return out;
        }
        if in_stroke {
            match &self.facets {
                Some(v) => {
                    if v.len() > 0 {
                        let mut i: usize = 0;
                        while i < v.len()
                            invariant
                                i <= v.len(),
                                out.len() == i,
                                forall|k: int| 0 <= k < i ==> #[trigger] out@[k] == v@[k],
                            decreases v.len() - i,
                        {
                            out.push(v[i]);
                            i += 1;
                        }
                        assert(out@ =~= v@);
                        return out;
                    }
                },
                None => {},
            }
        }
        match hovered {
            Some(f) => {
                out.push(f as i32);
                assert(out@ =~= seq![f as i32]);
            },
            None => {
                assert(out@ =~= Seq::<i32>::empty());
            },
        }
        out
    }
}

/// Everything that passes a confining lock lies on a locked facet, and was there before.
pub proof fn law_locked_paint_stays_on_the_face<T>(items: Seq<T>, on: spec_fn(T) -> bool)
    ensures
        forall|i: int| 0 <= i < kept(items, on).len() ==> on(#[trigger] kept(items, on)[i]),
        forall|i: int|
            0 <= i < kept(items, on).len() ==> items.contains(#[trigger] kept(items, on)[i]),
        forall|x: T| items.contains(x) && on(x) ==> #[trigger] kept(items, on).contains(x),
    decreases items.len(),
{
    if items.len() > 0 {
        let rest = items.drop_last();
        law_locked_paint_stays_on_the_face(rest, on);
        assert(items[items.len() - 1] == items.last());
        assert forall|i: int| 0 <= i < kept(items, on).len() implies items.contains(
            #[trigger] kept(items, on)[i],
        ) by {
            let k = kept(items, on)[i];
            if i < kept(rest, on).len() {
                assert(kept(rest, on)[i] == k);
                assert(rest.contains(k));
                let j = choose|j: int| 0 <= j < rest.len() && rest[j] == k;
                assert(items[j] == k);
            }
        }
        assert forall|x: T| items.contains(x) && on(x) implies #[trigger] kept(
            items,
            on,
        ).contains(x) by {
            if rest.contains(x) {
                assert(kept(rest, on).contains(x));
                let j = choose|j: int| 0 <= j < kept(rest, on).len() && kept(rest, on)[j] == x;
                assert(kept(items, on)[j] == x);
            } else {
                let j = choose|j: int| 0 <= j < items.len() && items[j] == x;
                if j < rest.len() {
                    assert(rest[j] == x);
                }
                assert(kept(items, on)[kept(rest, on).len() as int] == x);
            }
        }
    }
}

/// Edge `e` of triangle `t` lies on the rim of its facet: there is no triangle across it,
/// or one of another facet.
pub open spec fn on_rim(facet_of: Seq<u32>, nb: Seq<[i32; 3]>, t: int, e: int) -> bool {
    nb[t][e] < 0 || facet_of[nb[t][e] as int] != facet_of[t]
}

/// The rim edges of the given facets among the first `h` corner slots, in order.
pub open spec fn rim_edges(
    facet_of: Seq<u32>,
    nb: Seq<[i32; 3]>,
    facets: Seq<i32>,
    h: int,
) -> Seq<(usize, usize)>
    decreases h,
{
    if h <= 0 {
        Seq::empty()
    } else {
        let t = (h - 1) / 3;
        let e = (h - 1) % 3;
        if facets.contains(facet_of[t] as i32) && on_rim(facet_of, nb, t, e) {
            rim_edges(facet_of, nb, facets, h - 1).push((t as usize, e as usize))
        } else {
            rim_edges(facet_of, nb, facets, h - 1)
        }
    }
}

/// The edges to draw around facets, as triangle and edge slot: every edge whose other side
/// lies in another facet or off the mesh.
pub fn build_outline(map: &FillMap, adj: &Adjacency, facets: &Vec<i32>) -> (edges: Vec<
    (usize, usize),
>)
    requires
        map.wf(),
        neighbors_wf(adj@),
        map.facet_of_tri.len() == adj@.len(),
    ensures
        edges@ == rim_edges(map.facet_of_tri@, adj@, facets@, 3 * adj@.len() as int),
{
    let nb = adj.neighbors();
    let n: usize = nb.len();
    let mut edges: Vec<(usize, usize)> = Vec::new();
    let mut t: usize = 0;
    while t < n
        invariant
            map.wf(),
            neighbors_wf(adj@),
            nb@ == adj@,
            n == adj@.len() == map.facet_of_tri.len(),
            t <= n,
            edges@ == rim_edges(map.facet_of_tri@, adj@, facets@, 3 * t),
        decreases n - t,
    {
        let f: u32 = map.facet_of_tri[t];
        let wanted: bool = has(facets, f as i32);
        let mut e: usize = 0;
        while e < 3
            invariant
                map.wf(),
                neighbors_wf(adj@),
                nb@ == adj@,
                n == adj@.len() == map.facet_of_tri.len(),
                t < n,
                e <= 3,
                f == map.facet_of_tri@[t as int],
                wanted == facets@.contains(f as i32),
                edges@ == rim_edges(map.facet_of_tri@, adj@, facets@, 3 * t + e),
            decreases 3 - e,
        {
            let across: i32 = nb[t][e];
            assert((3 * t + e) / 3 == t && (3 * t + e) % 3 == e);
            assert(across == adj@[t as int][e as int]);
            if wanted && (across < 0 || map.facet_of_tri[across as usize] != f) {
                edges.push((t, e));
            }
            e += 1;
        }
        t += 1;
    }
    edges
}

fn has(v: &Vec<i32>, x: i32) -> (b: bool)
    ensures
        b == v@.contains(x),
{
    let mut i: usize = 0;
    while i < v.len()
        invariant
            i <= v.len(),
            forall|k: int| 0 <= k < i ==> #[trigger] v@[k] != x,
        decreases v.len() - i,
    {
        if v[i] == x {
            assert(v@[i as int] == x);
            return true;
        }
        i += 1;
    }
    false
}

} // verus!
