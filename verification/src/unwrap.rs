//! The combinatorial half of the automatic UV unwrap.
//!
//! Vertices are welded by position, triangles are grown into connected charts, congruent
//! charts may share a slot, and the slots are packed into a power-of-two atlas.
//! Projections, normals and densities are the caller's; it hands in what the decisions
//! here depend on.

use crate::edges::{is_listed, lemma_listed_counts, lemma_listed_same, list_neighbors};
use crate::mesh::{build_split, next_slot, Mesh, SourceTransform};
use crate::numbering::{
    firsts, lemma_firsts, lemma_numbers_eq, lemma_numbers_same, number_keys, numbers, repeats,
};
use vstd::prelude::*;

verus! {

broadcast use vstd::std_specs::hash::group_hash_axioms;

/// Coarse texel-density knob.
#[derive(Clone, Copy, PartialEq, Eq, Structural, Debug)]
pub enum Density {
    Low,
    Medium,
    High,
}

impl Default for Density {
    fn default() -> (d: Density)
        ensures
            d == Density::Medium,
    {
        Density::Medium
    }
}

impl Density {
    pub const ALL: [Density; 3] = [Density::Low, Density::Medium, Density::High];

    pub open spec fn label(self) -> Seq<char> {
        match self {
            Density::Low => "Low"@,
            Density::Medium => "Medium"@,
            Density::High => "High"@,
        }
    }

    pub fn name(self) -> (name: &'static str)
        ensures
            name@ == self.label(),
    {
        match self {
            Density::Low => "Low",
            Density::Medium => "Medium",
            Density::High => "High",
        }
    }
}

pub open spec fn is_pow2(p: int) -> bool {
    exists|k: nat| p == #[trigger] vstd::arithmetic::power2::pow2(k)
}

/// `p` is the smallest power of two that is at least `x` and at least 8.
pub open spec fn is_next_pow2(x: int, p: int) -> bool {
    &&& is_pow2(p)
    &&& 8 <= p
    &&& x <= p
    &&& p == 8 || p < 2 * x
}

proof fn lemma_pow2_double(p: int)
    requires
        is_pow2(p),
    ensures
        is_pow2(2 * p),
{
    let k = choose|k: nat| p == #[trigger] vstd::arithmetic::power2::pow2(k);
    vstd::arithmetic::power2::lemma_pow2_unfold(k + 1);
    assert(2 * p == vstd::arithmetic::power2::pow2(k + 1));
}

proof fn lemma_pow2_8()
    ensures
        is_pow2(8),
        is_pow2(0x8000_0000),
{
    vstd::arithmetic::power2::lemma2_to64();
    assert(8 == vstd::arithmetic::power2::pow2(3));
    assert(0x8000_0000 == vstd::arithmetic::power2::pow2(31));
}

/// Between a power of two and its double there is no other.
proof fn lemma_pow2_gap(p: int, q: int)
    requires
        is_pow2(p),
        is_pow2(q),
        p < q,
    ensures
        2 * p <= q,
{
    let i = choose|k: nat| p == #[trigger] vstd::arithmetic::power2::pow2(k);
    let j = choose|k: nat| q == #[trigger] vstd::arithmetic::power2::pow2(k);
    if j <= i {
        if j < i {
            vstd::arithmetic::power2::lemma_pow2_strictly_increases(j, i);
        }
    } else {
        vstd::arithmetic::power2::lemma_pow2_unfold(i + 1);
        if i + 1 < j {
            vstd::arithmetic::power2::lemma_pow2_strictly_increases(i + 1, j);
        }
    }
}

/// Smallest power of two at least `x`, never under 8.
pub fn next_pow2(x: u32) -> (p: u32)
    requires
        x <= 0x8000_0000,
    ensures
        is_next_pow2(x as int, p as int),
{
    let mut p: u32 = 8;
    proof {
        lemma_pow2_8();
    }
    while p < x
        invariant
            x <= 0x8000_0000,
            8 <= p <= 0x8000_0000,
            is_pow2(p as int),
            p == 8 || p < 2 * x,
        decreases 0x8000_0000 - p,
    {
        proof {
            lemma_pow2_8();
            lemma_pow2_double(p as int);
            lemma_pow2_gap(p as int, 0x8000_0000);
        }
        p = p * 2;
    }
    p
}

/// `p` is the largest power of two that is at most `max_atlas`, or 8 where that is less.
pub open spec fn is_max_pow2(max_atlas: int, p: int) -> bool {
    &&& is_pow2(p)
    &&& 8 <= p
    &&& p <= max_atlas || p == 8
    &&& max_atlas < 2 * p
}

/// Largest power of two at most `max_atlas`, never under 8.
pub fn max_pow2(max_atlas: u32) -> (p: u32)
    requires
        max_atlas < 0x8000_0000,
    ensures
        is_max_pow2(max_atlas as int, p as int),
{
    let mut p: u32 = 8;
    proof {
        lemma_pow2_8();
    }
    while p * 2 <= max_atlas
        invariant
            max_atlas < 0x8000_0000,
            8 <= p < 0x8000_0000,
            is_pow2(p as int),
            p <= max_atlas || p == 8,
        decreases max_atlas - p,
    {
        proof {
            lemma_pow2_double(p as int);
        }
        p = p * 2;
    }
    p
}

/// `p` is the atlas of a layout without charts: the next power of two from the target, or
/// the largest within the limit where the target reaches that.
pub open spec fn is_empty_atlas(target: int, max_atlas: int, p: int) -> bool {
    exists|most: int| #[trigger]
        is_max_pow2(max_atlas, most) && if target < most {
            is_next_pow2(target, p)
        } else {
            p == most
        }
}

/// How far the density search for one atlas has come: packing is repeated at rescaled
/// densities until the layout fills the atlas, and then until it no longer exceeds it.
#[derive(Clone, Copy, PartialEq, Eq, Structural, Debug)]
pub struct AtlasFit {
    pub atlas: u32,
    pub clamped: bool,
    pub fills_left: u32,
    pub trims_left: u32,
}

pub open spec fn larger(a: int, b: int) -> int {
    if a < b {
        b
    } else {
        a
    }
}

/// The layout is within a hundredth of the atlas.
pub open spec fn fills(atlas: int, cur: int) -> bool {
    -cur < (atlas - cur) * 100 < cur
}

impl AtlasFit {
    /// The atlas for a layout of extent `w` by `h`: the next power of two, clamped to the
    /// largest one within `max_atlas`. With `fill`, the density may be rescaled eight times
    /// to fill it, and in any case six times to stay within it.
    pub open spec fn chosen(self, w: int, h: int, max_atlas: int, fill: bool) -> bool {
        &&& exists|natural: int, limit: int|
            #![trigger is_next_pow2(larger(w, h), natural), is_max_pow2(max_atlas, limit)]
            is_next_pow2(larger(w, h), natural) && is_max_pow2(max_atlas, limit) && self.clamped
                == (natural > limit) && self.atlas == if natural > limit {
                limit
            } else {
                natural
            }
        &&& self.fills_left == if fill {
            8u32
        } else {
            0u32
        }
        &&& self.trims_left == 6
    }

    /// The search after a packing of extent `w` by `h`, and the extent to rescale by if
    /// another packing is needed.
    pub open spec fn after(self, w: u64, h: u64) -> (AtlasFit, Option<u64>) {
        let extent = larger(w as int, h as int);
        let cur = larger(extent, 1);
        if self.fills_left > 0 && !fills(self.atlas as int, cur) {
            (AtlasFit { fills_left: (self.fills_left - 1) as u32, ..self }, Some(cur as u64))
        } else if extent > self.atlas && self.trims_left > 0 {
            (
                AtlasFit { fills_left: 0, trims_left: (self.trims_left - 1) as u32, ..self },
                Some(extent as u64),
            )
        } else {
            (AtlasFit { fills_left: 0, ..self }, None)
        }
    }

    /// Picks the atlas for a layout of extent `w` by `h`.
    pub fn new(w: u64, h: u64, max_atlas: u32, fill: bool) -> (fit: AtlasFit)
        requires
            max_atlas < 0x8000_0000,
        ensures
            fit.chosen(w as int, h as int, max_atlas as int, fill),
    {
        let limit: u32 = max_pow2(max_atlas);
        let extent: u64 = if w < h {
            h
        } else {
            w
        };
        assert(is_max_pow2(max_atlas as int, limit as int));
        let fills_left: u32 = if fill {
            8
        } else {
            0
        };
        if extent > 0x8000_0000 {
            proof {
                lemma_pow2_8();
                let natural = lemma_next_pow2_exists(extent as int, 8);
                assert(is_next_pow2(larger(w as int, h as int), natural));
                assert(limit <= max_atlas || limit == 8);
                assert(natural > limit);
            }
            return AtlasFit { atlas: limit, clamped: true, fills_left, trims_left: 6 };
        }
        let natural: u32 = next_pow2(extent as u32);
        assert(is_next_pow2(larger(w as int, h as int), natural as int));
        let clamped: bool = natural > limit;
        let atlas: u32 = if clamped {
            limit
        } else {
            natural
        };
        AtlasFit { atlas, clamped, fills_left, trims_left: 6 }
    }

    /// Looks at the extent of the last packing. `Some(cur)` asks for one more packing with
    /// the density scaled by `atlas / cur`; `None` accepts the layout.
    pub fn next(&mut self, w: u64, h: u64) -> (scale: Option<u64>)
        ensures
            (*final(self), scale) == old(self).after(w, h),
    {
        let extent: u64 = if w < h {
            h
        } else {
            w
        };
        let cur: u64 = if extent < 1 {
            1
        } else {
            extent
        };
        let atlas: u64 = self.atlas as u64;
        if self.fills_left > 0 {
            let gap: u64 = if atlas < cur {
                cur - atlas
            } else {
                atlas - cur
            };
            if gap as u128 * 100 >= cur as u128 {
                self.fills_left -= 1;
                return Some(cur);
            }
            self.fills_left = 0;
        }
        if extent > atlas && self.trims_left > 0 {
            self.trims_left -= 1;
            return Some(extent);
        }
        None
    }
}

proof fn lemma_next_pow2_exists(x: int, from: int) -> (p: int)
    requires
        is_pow2(from),
        8 <= from,
        from == 8 || from < 2 * x,
    ensures
        is_next_pow2(x, p),
    decreases 2 * x - from,
{
    if x <= from {
        from
    } else {
        lemma_pow2_double(from);
        lemma_next_pow2_exists(x, 2 * from)
    }
}

/// The atlas is a power of two between 8 and the limit, and unless it was clamped the
/// first layout fits in it.
pub proof fn law_atlas_is_a_power_of_two_within_the_limit(
    w: int,
    h: int,
    max_atlas: int,
    fill: bool,
    fit: AtlasFit,
)
    requires
        fit.chosen(w, h, max_atlas, fill),
    ensures
        is_pow2(fit.atlas as int),
        8 <= fit.atlas,
        fit.atlas <= max_atlas || fit.atlas == 8,
        !fit.clamped ==> w <= fit.atlas && h <= fit.atlas,
        fit.clamped ==> larger(w, h) > fit.atlas,
{
    let (natural, limit) = choose|natural: int, limit: int|
        #![trigger is_next_pow2(larger(w, h), natural), is_max_pow2(max_atlas, limit)]
        is_next_pow2(larger(w, h), natural) && is_max_pow2(max_atlas, limit) && fit.clamped == (
        natural > limit) && fit.atlas == if natural > limit {
            limit
        } else {
            natural
        };
    if fit.clamped {
        lemma_pow2_gap(limit, natural);
    }
}

/// A quantized position on the welding grid.
pub type WeldKey = (i64, i64, i64);

spec fn shifted(x: i64) -> int {
    x + 0x8000_0000_0000_0000
}

/// An `i64` counted from the lowest one up.
fn shift(x: i64) -> (u: u128)
    ensures
        u == shifted(x),
        u < 0x1_0000_0000_0000_0000,
{
    (x as i128 + 0x8000_0000_0000_0000) as u128
}

/// Numbers pairs of a number and a coordinate in the order they are first seen.
fn number_pairs(ids: &Vec<u32>, coords: &Vec<i64>) -> (out: Vec<u32>)
    requires
        ids.len() == coords.len(),
        ids.len() <= u32::MAX,
    ensures
        numbers(Seq::new(ids@.len(), |i: int| (ids@[i], coords@[i])), out@),
{
    let mut keys: Vec<u128> = Vec::new();
    let mut i: usize = 0;
    while i < ids.len()
        invariant
            i <= ids.len() == coords.len(),
            keys.len() == i,
            forall|k: int|
                0 <= k < i ==> #[trigger] keys@[k] == ids@[k] * 0x1_0000_0000_0000_0000 + shifted(
                    coords@[k],
                ),
        decreases ids.len() - i,
    {
        keys.push(ids[i] as u128 * 0x1_0000_0000_0000_0000 + shift(coords[i]));
        i += 1;
    }
    let out = number_keys(&keys);
    proof {
        let pairs = Seq::new(ids@.len(), |i: int| (ids@[i], coords@[i]));
        assert forall|i: int, j: int| 0 <= i < keys.len() && 0 <= j < keys.len() implies (
        #[trigger] keys@[i] == #[trigger] keys@[j] <==> pairs[i] == pairs[j]) by {}
        lemma_numbers_same(keys@, pairs, out@);
    }
    out
}

/// Welds vertices by quantized position: each vertex gets the number of its position, in
/// the order positions are first seen. Vertices at one position share a number even where
/// the mesh stores them apart.
pub fn weld_positions(keys: &Vec<WeldKey>) -> (weld: Vec<u32>)
    requires
        keys.len() <= u32::MAX,
    ensures
        numbers(keys@, weld@),
{
    let mut zero: Vec<u32> = Vec::new();
    let mut xs: Vec<i64> = Vec::new();
    let mut ys: Vec<i64> = Vec::new();
    let mut zs: Vec<i64> = Vec::new();
    let mut i: usize = 0;
    while i < keys.len()
        invariant
            i <= keys.len(),
            zero.len() == i,
            xs.len() == i,
            ys.len() == i,
            zs.len() == i,
            forall|k: int| 0 <= k < i ==> #[trigger] zero@[k] == 0,
            forall|k: int| 0 <= k < i ==> #[trigger] xs@[k] == keys@[k].0,
            forall|k: int| 0 <= k < i ==> #[trigger] ys@[k] == keys@[k].1,
            forall|k: int| 0 <= k < i ==> #[trigger] zs@[k] == keys@[k].2,
        decreases keys.len() - i,
    {
        let k: WeldKey = keys[i];
        zero.push(0);
        xs.push(k.0);
        ys.push(k.1);
        zs.push(k.2);
        i += 1;
    }
    let by_x = number_pairs(&zero, &xs);
    let by_xy = number_pairs(&by_x, &ys);
    let weld = number_pairs(&by_xy, &zs);
    proof {
        let n = keys@.len();
        let px = Seq::new(n, |i: int| (zero@[i], xs@[i]));
        let pxy = Seq::new(n, |i: int| (by_x@[i], ys@[i]));
        let pxyz = Seq::new(n, |i: int| (by_xy@[i], zs@[i]));
        assert forall|i: int, j: int| 0 <= i < n && 0 <= j < n implies (#[trigger] pxyz[i]
            == #[trigger] pxyz[j] <==> keys@[i] == keys@[j]) by {
            lemma_numbers_eq(px, by_x@, i, j);
            lemma_numbers_eq(pxy, by_xy@, i, j);
            assert(zero@[i] == zero@[j]);
            assert(xs@[i] == keys@[i].0 && xs@[j] == keys@[j].0);
            assert(ys@[i] == keys@[i].1 && ys@[j] == keys@[j].1);
            assert(zs@[i] == keys@[i].2 && zs@[j] == keys@[j].2);
        }
        lemma_numbers_same(pxyz, keys@, weld@);
    }
    weld
}

/// Welding joins two vertices exactly when their quantized positions are equal.
pub proof fn law_weld_joins_equal_positions(keys: Seq<WeldKey>, weld: Seq<u32>, i: int, j: int)
    requires
        numbers(keys, weld),
        0 <= i < keys.len(),
        0 <= j < keys.len(),
    ensures
        weld[i] == weld[j] <==> keys[i] == keys[j],
{
    lemma_numbers_eq(keys, weld, i, j);
}

/// The positions at which a quantized point is seen for the first time, ascending. A
/// chart's corners repeat along shared edges; these are its distinct ones.
pub fn dedup_verts(keys: &Vec<(i64, i64)>) -> (kept: Vec<usize>)
    requires
        keys.len() <= u32::MAX,
    ensures
        kept@.map_values(|i: usize| i as int) == firsts(keys@, keys.len() as int),
{
    let mut packed: Vec<u128> = Vec::new();
    let mut i: usize = 0;
    while i < keys.len()
        invariant
            i <= keys.len(),
            packed.len() == i,
            forall|k: int|
                0 <= k < i ==> #[trigger] packed@[k] == shifted(keys@[k].0)
                    * 0x1_0000_0000_0000_0000 + shifted(keys@[k].1),
        decreases keys.len() - i,
    {
        let k = keys[i];
        packed.push(shift(k.0) * 0x1_0000_0000_0000_0000 + shift(k.1));
        i += 1;
    }
    let ids = number_keys(&packed);
    proof {
        assert forall|i: int, j: int| 0 <= i < keys.len() && 0 <= j < keys.len() implies (
        #[trigger] packed@[i] == #[trigger] packed@[j] <==> keys@[i] == keys@[j]) by {}
        lemma_numbers_same(packed@, keys@, ids@);
    }
    let mut kept: Vec<usize> = Vec::new();
    let mut next: u32 = 0;
    let mut m: usize = 0;
    while m < keys.len()
        invariant
            m <= keys.len() <= u32::MAX,
            numbers(keys@, ids@),
            next == firsts(keys@, m as int).len(),
            kept@.map_values(|i: usize| i as int) == firsts(keys@, m as int),
        decreases keys.len() - m,
    {
        proof {
            lemma_first_number(keys@, ids@, m as int);
            lemma_firsts(keys@, m as int);
        }
        if ids[m] == next {
            let ghost before = kept@;
            kept.push(m);
            next += 1;
            assert(kept@.map_values(|i: usize| i as int) =~= before.map_values(
                |i: usize| i as int,
            ).push(m as int));
        }
        m += 1;
    }
    kept
}

/// A value seen for the first time gets the next unused number.
proof fn lemma_first_number<T>(s: Seq<T>, ids: Seq<u32>, i: int)
    requires
        numbers(s, ids),
        0 <= i < s.len(),
    ensures
        ids[i] == firsts(s, i).len() <==> !repeats(s, i),
{
    let n = s.len() as int;
    lemma_firsts(s, n);
    lemma_firsts(s, i);
    lemma_firsts_prefix(s, i, n);
    if !repeats(s, i) {
        let p = firsts(s, i).len() as int;
        lemma_firsts_prefix(s, i + 1, n);
        assert(firsts(s, i + 1)[p] == i);
        assert(firsts(s, n)[p] == i);
        let a = ids[i] as int;
        if a < p {
            assert(s[firsts(s, n)[a]] != s[firsts(s, n)[p]]);
        } else if a > p {
            assert(s[firsts(s, n)[p]] != s[firsts(s, n)[a]]);
        }
    } else {
        let j = choose|j: int| 0 <= j < i && #[trigger] s[j] == s[i];
        let k = lemma_first_of(s, i, j);
        assert(firsts(s, n)[k] == firsts(s, i)[k]);
        let a = ids[i] as int;
        if a > k {
            assert(s[firsts(s, n)[k]] != s[firsts(s, n)[a]]);
        }
    }
}

proof fn lemma_firsts_prefix<T>(s: Seq<T>, i: int, n: int)
    requires
        0 <= i <= n <= s.len(),
    ensures
        firsts(s, i).len() <= firsts(s, n).len(),
        forall|k: int| 0 <= k < firsts(s, i).len() ==> #[trigger] firsts(s, n)[k] == firsts(s, i)[k],
    decreases n,
{
    if i < n {
        lemma_firsts_prefix(s, i, n - 1);
    }
}

/// The first position of the value at `i`.
proof fn lemma_first_of<T>(s: Seq<T>, n: int, i: int) -> (k: int)
    requires
        0 <= i < n <= s.len(),
    ensures
        0 <= k < firsts(s, n).len(),
        s[firsts(s, n)[k]] == s[i],
    decreases n,
{
    if i < n - 1 {
        lemma_first_of(s, n - 1, i)
    } else if repeats(s, n - 1) {
        let j = choose|j: int| 0 <= j < n - 1 && #[trigger] s[j] == s[n - 1];
        lemma_first_of(s, n - 1, j)
    } else {
        firsts(s, n).len() - 1
    }
}

/// The undirected edge between welded vertices that leaves corner slot `h`.
pub open spec fn welded_edge<F>(mesh: &Mesh<F>, weld: Seq<u32>, h: int) -> Set<u32> {
    set![weld[mesh.indices@[h] as int], weld[mesh.indices@[next_slot(h)] as int]]
}

/// The welded edges of all triangles, slot by slot.
pub open spec fn welded_edges<F>(mesh: &Mesh<F>, weld: Seq<u32>) -> Seq<Set<u32>> {
    Seq::new((3 * mesh.tri_count_spec()) as nat, |h: int| welded_edge(mesh, weld, h))
}

pub open spec fn one_if(b: bool) -> int {
    if b {
        1
    } else {
        0
    }
}

/// How often slot `h` and a slot before `g` on the same edge list triangle `b` as a
/// neighbour of triangle `a`: once each way.
pub open spec fn slot_links<T>(es: Seq<T>, a: int, b: int, h: int, g: int) -> int
    decreases g,
{
    if g <= 0 {
        0
    } else {
        slot_links(es, a, b, h, g - 1) + if es[g - 1] == es[h] {
            one_if((g - 1) / 3 == a && h / 3 == b) + one_if(h / 3 == a && (g - 1) / 3 == b)
        } else {
            0
        }
    }
}

/// How often triangle `b` is a neighbour of triangle `a`: once for every two slots, one of
/// each, among the first `n` that lie on the same edge.
pub open spec fn edge_links<T>(es: Seq<T>, a: int, b: int, n: int) -> int
    decreases n,
{
    if n <= 0 {
        0
    } else {
        edge_links(es, a, b, n - 1) + slot_links(es, a, b, n - 1, n - 1)
    }
}

/// How often `b` occurs in the list.
pub open spec fn count_in(s: Seq<usize>, b: int) -> int
    decreases s.len(),
{
    if s.len() == 0 {
        0
    } else {
        count_in(s.drop_last(), b) + one_if(s.last() == b)
    }
}

/// Per-triangle adjacency: two triangles are neighbours once for every welded edge they
/// share. Neighbours are listed edge by edge, and over one edge in slot order.
pub fn build_adjacency<F>(mesh: &Mesh<F>, weld: &Vec<u32>) -> (adj: Vec<Vec<usize>>)
    requires
        mesh.wf(),
        weld.len() == mesh.vertices.len(),
    ensures
        adjacency_wf(adj@, mesh.tri_count_spec()),
        is_listed(welded_edges(mesh, weld@), adj@),
        forall|a: int, b: int|
            0 <= a < adj.len() && 0 <= b < adj.len() ==> #[trigger] count_in(adj@[a]@, b)
                == edge_links(
                welded_edges(mesh, weld@),
                a,
                b,
                welded_edges(mesh, weld@).len() as int,
            ),
{
    let tri_count: usize = mesh.tri_count();
    let slots: usize = 3 * tri_count;
    let mut keys: Vec<u64> = Vec::new();
    let mut i: usize = 0;
    while i < slots
        invariant
            mesh.wf(),
            weld.len() == mesh.vertices.len(),
            slots == 3 * tri_count,
            tri_count == mesh.tri_count_spec(),
            i <= slots,
            keys.len() == i,
            forall|k: int|
                0 <= k < i ==> #[trigger] keys@[k] == edge_number(
                    weld@[mesh.indices@[k] as int],
                    weld@[mesh.indices@[next_slot(k)] as int],
                ),
        decreases slots - i,
    {
        let n: usize = if i % 3 == 2 {
            i - 2
        } else {
            i + 1
        };
        assert(n == next_slot(i as int));
        let a: u32 = weld[mesh.indices[i] as usize];
        let b: u32 = weld[mesh.indices[n] as usize];
        keys.push(
            if a <= b {
                a as u64 * 0x1_0000_0000 + b as u64
            } else {
                b as u64 * 0x1_0000_0000 + a as u64
            },
        );
        i += 1;
    }
    let adj = list_neighbors(&keys, tri_count);
    proof {
        let es = welded_edges(mesh, weld@);
        assert forall|i: int, j: int| 0 <= i < es.len() && 0 <= j < es.len() implies (
        #[trigger] es[i] == #[trigger] es[j] <==> keys@[i] == keys@[j]) by {
            lemma_edge_number(
                weld@[mesh.indices@[i] as int],
                weld@[mesh.indices@[next_slot(i)] as int],
                weld@[mesh.indices@[j] as int],
                weld@[mesh.indices@[next_slot(j)] as int],
            );
        }
        lemma_listed_same(es, keys@, adj@);
        assert forall|a: int, b: int| 0 <= a < adj.len() && 0 <= b < adj.len() implies
            #[trigger] count_in(adj@[a]@, b) == edge_links(es, a, b, es.len() as int) by {
            lemma_listed_counts(es, adj@, a, b);
        }
    }
    adj
}

/// Every triangle has a list of triangles.
pub open spec fn adjacency_wf(adj: Seq<Vec<usize>>, n: int) -> bool {
    &&& adj.len() == n
    &&& forall|a: int, k: int|
        0 <= a < adj.len() && 0 <= k < adj[a]@.len() ==> (#[trigger] adj[a]@[k]) < n
}

spec fn edge_number(a: u32, b: u32) -> int {
    if a <= b {
        a * 0x1_0000_0000 + b
    } else {
        b * 0x1_0000_0000 + a
    }
}

proof fn lemma_edge_number(a: u32, b: u32, c: u32, d: u32)
    ensures
        set![a, b] == set![c, d] <==> edge_number(a, b) == edge_number(c, d),
{
    let s = set![a, b];
    let t = set![c, d];
    if s == t {
        assert(s.contains(a) && s.contains(b));
        assert(t.contains(c) && t.contains(d));
        assert(t.contains(a) && t.contains(b));
        assert(s.contains(c) && s.contains(d));
    }
    if (a == c && b == d) || (a == d && b == c) {
        assert(s =~= t);
    }
}

proof fn lemma_slot_links_symmetric<T>(es: Seq<T>, a: int, b: int, h: int, g: int)
    ensures
        slot_links(es, a, b, h, g) == slot_links(es, b, a, h, g),
        0 <= slot_links(es, a, b, h, g),
    decreases g,
{
    if g > 0 {
        lemma_slot_links_symmetric(es, a, b, h, g - 1);
    }
}

/// Triangle `b` is as often a neighbour of `a` as `a` is one of `b`.
pub proof fn law_adjacency_is_symmetric<T>(es: Seq<T>, a: int, b: int, n: int)
    ensures
        edge_links(es, a, b, n) == edge_links(es, b, a, n),
        0 <= edge_links(es, a, b, n),
    decreases n,
{
    if n > 0 {
        law_adjacency_is_symmetric(es, a, b, n - 1);
        lemma_slot_links_symmetric(es, a, b, n - 1, n - 1);
    }
}

/// Slots `g` and `h` are different slots of triangles `a` and `b` on one edge.
pub open spec fn share_edge<T>(es: Seq<T>, a: int, b: int, g: int, h: int) -> bool {
    &&& g != h
    &&& g / 3 == a
    &&& h / 3 == b
    &&& es[g] == es[h]
}

spec fn share_either<T>(es: Seq<T>, a: int, b: int, h: int, k: int) -> bool {
    share_edge(es, a, b, k, h) || share_edge(es, a, b, h, k)
}

/// Triangles are neighbours exactly when they share an edge: this is what recovers the
/// connectivity of a mesh whose vertices are stored apart.
pub proof fn law_neighbors_share_an_edge<T>(es: Seq<T>, a: int, b: int, n: int)
    requires
        0 <= n <= es.len(),
    ensures
        edge_links(es, a, b, n) > 0 <==> exists|g: int, h: int|
            0 <= g < n && 0 <= h < n && #[trigger] share_edge(es, a, b, g, h),
    decreases n,
{
    if n > 0 {
        law_neighbors_share_an_edge(es, a, b, n - 1);
        law_adjacency_is_symmetric(es, a, b, n - 1);
        lemma_slot_links_positive(es, a, b, n - 1, n - 1);
        lemma_slot_links_symmetric(es, a, b, n - 1, n - 1);
        if slot_links(es, a, b, n - 1, n - 1) > 0 {
            let k = choose|k: int|
                0 <= k < n - 1 && #[trigger] share_either(es, a, b, n - 1, k);
            assert(share_edge(es, a, b, k, n - 1) || share_edge(es, a, b, n - 1, k));
        }
        if exists|g: int, h: int|
            0 <= g < n && 0 <= h < n && #[trigger] share_edge(es, a, b, g, h) {
            let (g, h) = choose|g: int, h: int|
                0 <= g < n && 0 <= h < n && #[trigger] share_edge(es, a, b, g, h);
            if g == n - 1 {
                assert(share_either(es, a, b, n - 1, h));
                assert(slot_links(es, a, b, n - 1, n - 1) > 0);
            } else if h == n - 1 {
                assert(share_either(es, a, b, n - 1, g));
                assert(slot_links(es, a, b, n - 1, n - 1) > 0);
            }
        }
    }
}

proof fn lemma_slot_links_positive<T>(es: Seq<T>, a: int, b: int, h: int, g: int)
    requires
        0 <= g <= h,
    ensures
        slot_links(es, a, b, h, g) > 0 <==> exists|k: int|
            0 <= k < g && #[trigger] share_either(es, a, b, h, k),
    decreases g,
{
    if g > 0 {
        lemma_slot_links_positive(es, a, b, h, g - 1);
        lemma_slot_links_symmetric(es, a, b, h, g - 1);
        if slot_links(es, a, b, h, g) > 0 && slot_links(es, a, b, h, g - 1) == 0 {
            assert(share_either(es, a, b, h, g - 1));
        }
        if exists|k: int|
            0 <= k < g && #[trigger] share_either(es, a, b, h, k) {
            let k = choose|k: int|
                0 <= k < g && #[trigger] share_either(es, a, b, h, k);
            if k < g - 1 {
                assert(share_either(es, a, b, h, k));
                assert(slot_links(es, a, b, h, g - 1) > 0);
            }
        }
    }
}

/// Tunables of an unwrap, generic in the real number type.
#[derive(Clone, Copy, Debug)]
pub struct UnwrapOptions<F> {
    pub density: Density,
    /// Growth cone of a chart in degrees, measured from the seed normal.
    pub angle_cone_deg: F,
    /// Empty pixels around each chart.
    pub gutter_px: u32,
    /// Upper bound of the atlas size.
    pub max_atlas: u32,
    /// The size a medium-density atlas aims for.
    pub target_atlas_px: u32,
    /// Round chart corners to whole texels.
    pub snap_texels: bool,
    /// Lay congruent charts over each other.
    pub overlap_identical: bool,
    /// Exact texels per world unit, in place of the density preset.
    pub target_density: Option<F>,
}

impl<F> UnwrapOptions<F> {
    /// The usual settings with the given growth cone.
    pub fn with_cone(angle_cone_deg: F) -> (opts: UnwrapOptions<F>)
        ensures
            opts.density == Density::Medium,
            opts.angle_cone_deg == angle_cone_deg,
            opts.gutter_px == 4,
            opts.max_atlas == 8192,
            opts.target_atlas_px == 128,
            opts.snap_texels,
            !opts.overlap_identical,
            opts.target_density is None,
    {
        UnwrapOptions {
            density: Density::Medium,
            angle_cone_deg,
            gutter_px: 4,
            max_atlas: 8192,
            target_atlas_px: 128,
            snap_texels: true,
            overlap_identical: false,
            target_density: None,
        }
    }

    /// Whether charts are turned so that their boxes are smallest: for snapping, and always
    /// where congruent charts are to share a slot.
    pub fn rectifies(&self) -> (b: bool)
        ensures
            b == (self.snap_texels || self.overlap_identical),
    {
        self.snap_texels || self.overlap_identical
    }
}

/// What an unwrap produces: the mesh with its new UVs and the atlas they address.
#[derive(Clone, Debug)]
pub struct UnwrapResult<F> {
    pub mesh: Mesh<F>,
    pub atlas_size: u32,
    pub clamped: bool,
    pub density_d: F,
}

impl<F: Copy> UnwrapResult<F> {
    /// The result for a mesh without triangles: an empty mesh and an atlas of the target
    /// size, as a power of two within the limit.
    pub fn empty(
        target_atlas_px: u32,
        max_atlas: u32,
        density_d: F,
        source: SourceTransform<F>,
    ) -> (r: UnwrapResult<F>)
        requires
            max_atlas < 0x8000_0000,
        ensures
            r.mesh.vertices.len() == 0,
            r.mesh.indices.len() == 0,
            !r.mesh.needs_uvs,
            !r.mesh.needs_normals,
            r.mesh.source_transform == source,
            is_empty_atlas(target_atlas_px as int, max_atlas as int, r.atlas_size as int),
            is_pow2(r.atlas_size as int),
            8 <= r.atlas_size,
            r.atlas_size <= max_atlas || r.atlas_size == 8,
            !r.clamped,
            r.density_d == density_d,
    {
        let most: u32 = max_pow2(max_atlas);
        let atlas_size: u32 = if target_atlas_px < most {
            next_pow2(target_atlas_px)
        } else {
            most
        };
        proof {
            if most < atlas_size {
                lemma_pow2_gap(most as int, atlas_size as int);
            }
            assert(is_max_pow2(max_atlas as int, most as int));
        }
        UnwrapResult {
            mesh: build_split(&Vec::new(), source),
            atlas_size,
            clamped: false,
            density_d,
        }
    }
}

} // verus!
