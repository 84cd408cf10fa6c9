//! Connectivity of the mesh surface, and the flood a brush dab walks over it.
//!
//! Adjacency is keyed on position alone, so two faces that meet at a UV seam are still
//! neighbours: a dab wraps over the edge but never reaches an unconnected wall.

use crate::mesh::{next_slot, Mesh};
use crate::numbering::{lemma_numbers_eq, number_keys, numbers};
use std::collections::HashMap;
use vstd::prelude::*;

verus! {

broadcast use vstd::std_specs::hash::group_hash_axioms;

/// A position on the grid that edge endpoints are compared on.
pub type PosKey = (i32, i32, i32);

/// The position at corner slot `h`.
pub open spec fn pos_key(mesh: &Mesh<i32>, h: int) -> PosKey {
    let p = mesh.corner(h).position;
    (p[0], p[1], p[2])
}

/// The undirected edge that leaves corner slot `h`: edge `h % 3` of triangle `h / 3`.
pub open spec fn edge(mesh: &Mesh<i32>, h: int) -> Set<PosKey> {
    set![pos_key(mesh, h), pos_key(mesh, next_slot(h))]
}

/// The edges of all triangles, slot by slot.
pub open spec fn edges(mesh: &Mesh<i32>) -> Seq<Set<PosKey>> {
    Seq::new((3 * mesh.tri_count_spec()) as nat, |h: int| edge(mesh, h))
}

/// How often the value at `h` occurs among the first `n`.
pub open spec fn occurrences<T>(s: Seq<T>, h: int, n: int) -> int
    decreases n,
{
    if n <= 0 {
        0
    } else {
        occurrences(s, h, n - 1) + if s[n - 1] == s[h] {
            1int
        } else {
            0
        }
    }
}

/// Slots `g < h` hold the same value and are matched with each other: the first
/// occurrence with the second, the third with the fourth, and so on.
pub open spec fn matched<T>(s: Seq<T>, g: int, h: int) -> bool {
    &&& 0 <= g < h < s.len()
    &&& s[g] == s[h]
    &&& occurrences(s, g, g) % 2 == 0
    &&& forall|k: int| g < k < h ==> #[trigger] s[k] != s[g]
}

/// Slots `g` and `h` are matched, in either order.
pub open spec fn partners<T>(s: Seq<T>, g: int, h: int) -> bool {
    matched(s, g, h) || matched(s, h, g)
}

proof fn lemma_occurrences_eq<T>(s: Seq<T>, g: int, h: int, n: int)
    requires
        s[g] == s[h],
    ensures
        occurrences(s, g, n) == occurrences(s, h, n),
    decreases n,
{
    if n > 0 {
        lemma_occurrences_eq(s, g, h, n - 1);
    }
}

/// No occurrence of the value between `a` and `b` leaves the count unchanged.
proof fn lemma_occurrences_gap<T>(s: Seq<T>, h: int, a: int, b: int)
    requires
        0 <= a <= b,
        forall|k: int| a <= k < b ==> #[trigger] s[k] != s[h],
    ensures
        occurrences(s, h, a) == occurrences(s, h, b),
    decreases b - a,
{
    if a < b {
        lemma_occurrences_gap(s, h, a, b - 1);
        assert(s[b - 1] != s[h]);
    }
}

proof fn lemma_occurrences_same<T, U>(s: Seq<T>, t: Seq<U>, h: int, n: int)
    requires
        0 <= n <= s.len(),
        0 <= h < s.len(),
        s.len() == t.len(),
        forall|i: int, j: int|
            0 <= i < s.len() && 0 <= j < s.len() ==> (#[trigger] s[i] == #[trigger] s[j] <==> t[i]
                == t[j]),
    ensures
        occurrences(s, h, n) == occurrences(t, h, n),
    decreases n,
{
    if n > 0 {
        lemma_occurrences_same(s, t, h, n - 1);
        assert(s[n - 1] == s[h] <==> t[n - 1] == t[h]);
    }
}

/// Which slots are matched only depends on which values are equal.
proof fn lemma_matched_same<T, U>(s: Seq<T>, t: Seq<U>, g: int, h: int)
    requires
        s.len() == t.len(),
        forall|i: int, j: int|
            0 <= i < s.len() && 0 <= j < s.len() ==> (#[trigger] s[i] == #[trigger] s[j] <==> t[i]
                == t[j]),
    ensures
        matched(s, g, h) <==> matched(t, g, h),
{
    if 0 <= g < h < s.len() {
        lemma_occurrences_same(s, t, g, g);
        assert(s[g] == s[h] <==> t[g] == t[h]);
        if matched(s, g, h) {
            assert forall|k: int| g < k < h implies #[trigger] t[k] != t[g] by {
                assert(s[k] != s[g]);
            }
        }
        if matched(t, g, h) {
            assert forall|k: int| g < k < h implies #[trigger] s[k] != s[g] by {
                assert(t[k] != t[g]);
            }
        }
    }
}

/// The last slot before `h` with the value of `h`, if that is still unmatched, is the
/// only slot `h` can be matched with from below.
proof fn lemma_matched_below<T>(s: Seq<T>, g: int, h: int, other: int)
    requires
        matched(s, g, h),
        matched(s, other, h),
    ensures
        g == other,
{
    if g < other {
        assert(s[other] != s[g]);
    } else if other < g {
        assert(s[g] != s[other]);
    }
}

/// A slot that closes a pair opens none, and the other way round.
proof fn lemma_matched_parity<T>(s: Seq<T>, g: int, h: int)
    requires
        matched(s, g, h),
    ensures
        occurrences(s, h, h) % 2 == 1,
        forall|k: int| !matched(s, h, k),
        forall|k: int| !matched(s, k, g),
{
    lemma_occurrences_eq(s, g, h, g);
    lemma_occurrences_gap(s, h, g + 1, h);
    assert forall|k: int| !matched(s, k, g) by {
        if matched(s, k, g) {
            lemma_occurrences_eq(s, k, g, k);
            lemma_occurrences_gap(s, g, k + 1, g);
        }
    }
}

/// The slot each slot is matched with.
#[verifier::spinoff_prover]
#[verifier::rlimit(40)]
fn match_slots(keys: &Vec<u64>) -> (partner: Vec<Option<usize>>)
    ensures
        partner.len() == keys.len(),
        forall|h: int|
            0 <= h < keys.len() ==> match #[trigger] partner@[h] {
                Some(g) => partners(keys@, g as int, h),
                None => forall|g: int| !partners(keys@, g, h),
            },
{
    let mut owner: HashMap<u64, usize> = HashMap::new();
    let mut partner: Vec<Option<usize>> = Vec::new();
    let ghost s = keys@;
    let mut h: usize = 0;
    while h < keys.len()
        invariant
            h <= keys.len(),
            s == keys@,
            partner.len() == h,
            forall|key: u64| #[trigger]
                owner@.contains_key(key) ==> {
                    let g = owner@[key] as int;
                    &&& 0 <= g < h
                    &&& s[g] == key
                    &&& occurrences(s, g, g) % 2 == 0
                    &&& forall|k: int| g < k < h ==> #[trigger] s[k] != key
                },
            forall|k: int|
                0 <= k < s.len() && !owner@.contains_key(#[trigger] s[k]) ==> occurrences(
                    s,
                    k,
                    h as int,
                ) % 2 == 0,
            forall|j: int|
                0 <= j < h ==> match #[trigger] partner@[j] {
                    Some(g) => g < h && partners(s, g as int, j),
                    None => owner@.contains_key(s[j]) && owner@[s[j]] == j,
                },
        decreases keys.len() - h,
    {
        let key: u64 = keys[h];
        let ghost before = owner@;
        match owner.remove(&key) {
            Some(g) => {
                proof {
                    assert(matched(s, g as int, h as int));
                    lemma_matched_parity(s, g as int, h as int);
                }
                partner.set(g, Some(h));
                partner.push(Some(g));
                proof {
                    assert forall|k: int|
                        0 <= k < s.len() && !owner@.contains_key(
                            #[trigger] s[k],
                        ) implies occurrences(s, k, h + 1) % 2 == 0 by {
                        if s[k] == key {
                            lemma_occurrences_eq(s, k, h as int, h as int);
                        } else {
                            assert(!before.contains_key(s[k]));
                        }
                    }
                }
            },
            None => {
                proof {
                    assert(!before.contains_key(s[h as int]));
                }
                owner.insert(key, h);
                partner.push(None);
                proof {
                    assert forall|k: int|
                        0 <= k < s.len() && !owner@.contains_key(
                            #[trigger] s[k],
                        ) implies occurrences(s, k, h + 1) % 2 == 0 by {
                        assert(!before.contains_key(s[k]));
                    }
                    assert forall|j: int| 0 <= j < h + 1 implies match #[trigger] partner@[j] {
                        Some(g) => g < h + 1 && partners(s, g as int, j),
                        None => owner@.contains_key(s[j]) && owner@[s[j]] == j,
                    } by {}
                }
            },
        }
        h += 1;
    }
    proof {
        assert forall|j: int| 0 <= j < s.len() implies match #[trigger] partner@[j] {
            Some(g) => partners(s, g as int, j),
            None => forall|g: int| !partners(s, g, j),
        } by {
            if partner@[j] is None {
                assert(owner@.contains_key(s[j]));
                assert forall|g: int| !partners(s, g, j) by {
                    if matched(s, g, j) {
                        lemma_matched_parity(s, g, j);
                    }
                    if matched(s, j, g) {
                        assert(s[g] != s[j]);
                    }
                }
            }
        }
    }
    partner
}

/// `nb` is the adjacency of the mesh: slot `e` of triangle `t` holds the triangle on the
/// other side of that edge, or -1 where the edge is a mesh boundary.
pub open spec fn is_adjacency(mesh: &Mesh<i32>, nb: Seq<[i32; 3]>) -> bool {
    &&& nb.len() == mesh.tri_count_spec()
    &&& forall|h: int, g: int|
        0 <= h < 3 * nb.len() && #[trigger] partners(edges(mesh), g, h) ==> slot(nb, h) == g / 3
    &&& forall|h: int|
        0 <= h < 3 * nb.len() && (forall|g: int| !#[trigger] partners(edges(mesh), g, h))
            ==> #[trigger] slot(nb, h) == -1
}

/// The entry for corner slot `h`.
pub open spec fn slot(nb: Seq<[i32; 3]>, h: int) -> int {
    nb[h / 3][h % 3] as int
}

/// Neighbour entries are -1 or name a triangle.
pub open spec fn neighbors_wf(nb: Seq<[i32; 3]>) -> bool {
    &&& nb.len() <= i32::MAX
    &&& forall|t: int, e: int|
        0 <= t < nb.len() && 0 <= e < 3 ==> -1 <= #[trigger] nb[t][e] < nb.len()
}

/// Per-triangle edge neighbours by position.
#[derive(Clone, Debug)]
pub struct Adjacency {
    neighbors: Vec<[i32; 3]>,
}

impl View for Adjacency {
    type V = Seq<[i32; 3]>;

    closed spec fn view(&self) -> Seq<[i32; 3]> {
        self.neighbors@
    }
}

/// Packs a position into one integer, keeping different positions apart.
fn pack_pos(p: [i32; 3]) -> (key: u128)
    ensures
        key == packed_pos(p[0], p[1], p[2]),
{
    let x: u128 = (p[0] as i64 + 0x8000_0000) as u128;
    let y: u128 = (p[1] as i64 + 0x8000_0000) as u128;
    let z: u128 = (p[2] as i64 + 0x8000_0000) as u128;
    x * 0x1_0000_0000_0000_0000 + y * 0x1_0000_0000 + z
}

spec fn packed_pos(x: i32, y: i32, z: i32) -> int {
    (x + 0x8000_0000) * 0x1_0000_0000_0000_0000 + (y + 0x8000_0000) * 0x1_0000_0000 + (z
        + 0x8000_0000)
}

/// The undirected edge between two vertex numbers as one integer.
fn pack_edge(a: u32, b: u32) -> (key: u64)
    ensures
        key == packed_edge(a, b),
{
    if a <= b {
        a as u64 * 0x1_0000_0000 + b as u64
    } else {
        b as u64 * 0x1_0000_0000 + a as u64
    }
}

spec fn packed_edge(a: u32, b: u32) -> int {
    if a <= b {
        a * 0x1_0000_0000 + b
    } else {
        b * 0x1_0000_0000 + a
    }
}

proof fn lemma_pair_sets<T>(a: T, b: T, c: T, d: T)
    ensures
        set![a, b] == set![c, d] <==> (a == c && b == d) || (a == d && b == c),
{
    let s = set![a, b];
    let t = set![c, d];
    if s == t {
        assert(s.contains(a) && s.contains(b));
        assert(t.contains(c) && t.contains(d));
        assert(t.contains(a) && t.contains(b));
        assert(s.contains(c) && s.contains(d));
    }
    if (a == c && b == d) || (a == d && b == c) {
        assert(s =~= t);
    }
}

impl Adjacency {
    /// Links the triangles that share an edge. Edges are compared by the grid positions
    /// of their endpoints, and their sharers are linked two by two in mesh order.
    pub fn build(mesh: &Mesh<i32>) -> (adj: Adjacency)
        requires
            mesh.wf(),
            mesh.vertices.len() <= u32::MAX,
            mesh.tri_count_spec() <= i32::MAX,
        ensures
            is_adjacency(mesh, adj@),
            neighbors_wf(adj@),
    {
        let tri_count: usize = mesh.tri_count();
        let mut packed: Vec<u128> = Vec::new();
        let mut v: usize = 0;
        while v < mesh.vertices.len()
            invariant
                v <= mesh.vertices.len(),
                packed.len() == v,
                forall|k: int|
                    0 <= k < v ==> #[trigger] packed@[k] == packed_pos(
                        mesh.vertices@[k].position[0],
                        mesh.vertices@[k].position[1],
                        mesh.vertices@[k].position[2],
                    ),
            decreases mesh.vertices.len() - v,
        {
            packed.push(pack_pos(mesh.vertices[v].position));
            v += 1;
        }
        let ids = number_keys(&packed);
        let slots: usize = 3 * tri_count;
        let mut keys: Vec<u64> = Vec::new();
        let mut h: usize = 0;
        while h < slots
            invariant
                mesh.wf(),
                    ids.len() == mesh.vertices.len(),
                slots == 3 * tri_count,
                tri_count == mesh.tri_count_spec(),
                h <= slots,
                keys.len() == h,
                forall|k: int|
                    0 <= k < h ==> #[trigger] keys@[k] == packed_edge(
                        ids@[mesh.indices@[k] as int],
                        ids@[mesh.indices@[next_slot(k)] as int],
                    ),
            decreases slots - h,
        {
            let n: usize = if h % 3 == 2 {
                h - 2
            } else {
                h + 1
            };
            assert(n == next_slot(h as int));
            assert(n < slots);
            let a: u32 = ids[mesh.indices[h] as usize];
            let b: u32 = ids[mesh.indices[n] as usize];
            keys.push(pack_edge(a, b));
            h += 1;
        }
        let ghost es = edges(mesh);
        proof {
            assert forall|i: int, j: int| 0 <= i < es.len() && 0 <= j < es.len() implies (
            #[trigger] es[i] == #[trigger] es[j] <==> keys@[i] == keys@[j]) by {
                lemma_edge_keys(mesh, packed@, ids@, i, j);
            }
        }
        let partner = match_slots(&keys);
        let mut neighbors: Vec<[i32; 3]> = Vec::new();
        let mut t: usize = 0;
        while t < tri_count
            invariant
                t <= tri_count <= i32::MAX,
                slots == 3 * tri_count,
                partner.len() == slots == keys.len(),
                neighbors.len() == t,
                forall|h: int|
                    0 <= h < keys.len() ==> match #[trigger] partner@[h] {
                        Some(g) => partners(keys@, g as int, h),
                        None => forall|g: int| !partners(keys@, g, h),
                    },
                forall|h: int|
                    0 <= h < 3 * t ==> #[trigger] slot(neighbors@, h) == side_of(partner@[h]),
            decreases tri_count - t,
        {
            let row = [
                Self::side(&partner, 3 * t),
                Self::side(&partner, 3 * t + 1),
                Self::side(&partner, 3 * t + 2),
            ];
            let ghost before = neighbors@;
            neighbors.push(row);
            proof {
                assert forall|h: int| 0 <= h < 3 * (t + 1) implies #[trigger] slot(neighbors@, h)
                    == side_of(partner@[h]) by {
                    if h < 3 * t {
                        assert(slot(neighbors@, h) == slot(before, h));
                    } else {
                        assert(h / 3 == t);
                        assert(h == 3 * t || h == 3 * t + 1 || h == 3 * t + 2);
                        assert(neighbors@[t as int] == row);
                    }
                }
            }
            t += 1;
        }
        let adj = Adjacency { neighbors };
        proof {
            assert forall|h: int, g: int|
                0 <= h < 3 * adj@.len() && #[trigger] partners(es, g, h) implies slot(adj@, h) == g
                / 3 by {
                lemma_matched_same(es, keys@, g, h);
                lemma_matched_same(es, keys@, h, g);
                assert(partners(keys@, g, h));
                assert(partner@[h] is Some);
                lemma_partner_unique(keys@, h, g, partner@[h]->0 as int);
            }
            assert forall|h: int|
                0 <= h < 3 * adj@.len() && (forall|g: int|
                    !#[trigger] partners(es, g, h)) implies #[trigger] slot(adj@, h) == -1 by {
                if partner@[h] is Some {
                    let g = partner@[h]->0 as int;
                    lemma_matched_same(es, keys@, g, h);
                    lemma_matched_same(es, keys@, h, g);
                    assert(partners(es, g, h));
                }
            }
            assert forall|t: int, e: int| 0 <= t < adj@.len() && 0 <= e < 3 implies -1
                <= #[trigger] adj@[t][e] < adj@.len() by {
                let h = 3 * t + e;
                assert(slot(adj@, h) == side_of(partner@[h]));
                assert(h / 3 == t && h % 3 == e);
            }
        }
        adj
    }

    fn side(partner: &Vec<Option<usize>>, h: usize) -> (side: i32)
        requires
            h < partner.len(),
            partner@[h as int] matches Some(g) ==> g / 3 <= i32::MAX,
        ensures
            side == side_of(partner@[h as int]),
    {
        match partner[h] {
            Some(g) => (g / 3) as i32,
            None => -1,
        }
    }

    /// Per-triangle edge neighbours, -1 at a mesh boundary. Slot `e` of a triangle is the
    /// neighbour across the edge between its corners `e` and `(e + 1) % 3`.
    pub fn neighbors(&self) -> (nb: &[[i32; 3]])
        ensures
            nb@ == self@,
    {
        self.neighbors.as_slice()
    }
}

spec fn side_of(partner: Option<usize>) -> int {
    match partner {
        Some(g) => g as int / 3,
        None => -1,
    }
}

proof fn lemma_partner_unique<T>(s: Seq<T>, h: int, a: int, b: int)
    requires
        partners(s, a, h),
        partners(s, b, h),
    ensures
        a == b,
{
    if matched(s, a, h) {
        lemma_matched_parity(s, a, h);
        lemma_matched_below(s, a, h, b);
    } else {
        lemma_matched_parity(s, h, a);
        if a < b {
            assert(s[a] != s[h]);
        } else if b < a {
            assert(s[b] != s[h]);
        }
    }
}

proof fn lemma_edge_keys(mesh: &Mesh<i32>, packed: Seq<u128>, ids: Seq<u32>, i: int, j: int)
    requires
        mesh.wf(),
        numbers(packed, ids),
        packed.len() == mesh.vertices.len(),
        forall|k: int|
            0 <= k < packed.len() ==> #[trigger] packed[k] == packed_pos(
                mesh.vertices@[k].position[0],
                mesh.vertices@[k].position[1],
                mesh.vertices@[k].position[2],
            ),
        0 <= i < 3 * mesh.tri_count_spec(),
        0 <= j < 3 * mesh.tri_count_spec(),
    ensures
        edge(mesh, i) == edge(mesh, j) <==> packed_edge(
            ids[mesh.indices@[i] as int],
            ids[mesh.indices@[next_slot(i)] as int],
        ) == packed_edge(ids[mesh.indices@[j] as int], ids[mesh.indices@[next_slot(j)] as int]),
{
    let a = next_slot(i);
    let b = next_slot(j);
    lemma_pair_sets(pos_key(mesh, i), pos_key(mesh, a), pos_key(mesh, j), pos_key(mesh, b));
    lemma_corner_ids(mesh, packed, ids, i, j);
    lemma_corner_ids(mesh, packed, ids, i, b);
    lemma_corner_ids(mesh, packed, ids, a, j);
    lemma_corner_ids(mesh, packed, ids, a, b);
}

proof fn lemma_corner_ids(mesh: &Mesh<i32>, packed: Seq<u128>, ids: Seq<u32>, i: int, j: int)
    requires
        mesh.wf(),
        numbers(packed, ids),
        packed.len() == mesh.vertices.len(),
        forall|k: int|
            0 <= k < packed.len() ==> #[trigger] packed[k] == packed_pos(
                mesh.vertices@[k].position[0],
                mesh.vertices@[k].position[1],
                mesh.vertices@[k].position[2],
            ),
        0 <= i < mesh.indices.len(),
        0 <= j < mesh.indices.len(),
    ensures
        pos_key(mesh, i) == pos_key(mesh, j) <==> ids[mesh.indices@[i] as int]
            == ids[mesh.indices@[j] as int],
{
    lemma_numbers_eq(packed, ids, mesh.indices@[i] as int, mesh.indices@[j] as int);
    assert(packed[mesh.indices@[i] as int] == packed_pos(
        pos_key(mesh, i).0,
        pos_key(mesh, i).1,
        pos_key(mesh, i).2,
    ));
    assert(packed[mesh.indices@[j] as int] == packed_pos(
        pos_key(mesh, j).0,
        pos_key(mesh, j).1,
        pos_key(mesh, j).2,
    ));
}

/// Neighbours are mutual: whatever triangle lies across an edge has the first one across
/// the same edge.
pub proof fn law_neighbors_are_mutual(mesh: &Mesh<i32>, nb: Seq<[i32; 3]>, t: int, e: int)
    requires
        is_adjacency(mesh, nb),
        0 <= t < nb.len(),
        0 <= e < 3,
        nb[t][e] != -1,
    ensures
        0 <= nb[t][e] < nb.len(),
        exists|back: int|
            0 <= back < 3 && #[trigger] nb[nb[t][e] as int][back] == t && edge(
                mesh,
                3 * nb[t][e] + back,
            ) == edge(mesh, 3 * t + e),
{
    let h = 3 * t + e;
    assert(h / 3 == t && h % 3 == e);
    assert(slot(nb, h) == nb[t][e]);
    let g = choose|g: int| #[trigger] partners(edges(mesh), g, h);
    assert(partners(edges(mesh), g, h));
    assert(partners(edges(mesh), h, g));
    assert(slot(nb, g) == t);
    assert(edges(mesh)[g] == edges(mesh)[h]);
    assert(nb[g / 3][g % 3] == t);
    assert(3 * (g / 3) + g % 3 == g);
}

/// On a mesh where every edge is shared by exactly two slots, no triangle has a boundary.
pub proof fn law_closed_mesh_has_no_boundary(mesh: &Mesh<i32>, nb: Seq<[i32; 3]>)
    requires
        is_adjacency(mesh, nb),
        forall|h: int|
            0 <= h < edges(mesh).len() ==> occurrences(
                edges(mesh),
                h,
                edges(mesh).len() as int,
            ) == 2,
    ensures
        forall|t: int, e: int| 0 <= t < nb.len() && 0 <= e < 3 ==> 0 <= #[trigger] nb[t][e],
{
    let es = edges(mesh);
    let n = es.len() as int;
    assert forall|t: int, e: int| 0 <= t < nb.len() && 0 <= e < 3 implies 0
        <= #[trigger] nb[t][e] by {
        let h = 3 * t + e;
        assert(h / 3 == t && h % 3 == e);
        assert(slot(nb, h) == nb[t][e]);
        assert(occurrences(es, h, n) == 2);
        let g = lemma_twin(es, h);
        assert(partners(es, g, h));
    }
}

/// Where a value occurs twice, its two slots are partners.
proof fn lemma_twin<T>(s: Seq<T>, h: int) -> (g: int)
    requires
        0 <= h < s.len(),
        occurrences(s, h, s.len() as int) == 2,
    ensures
        partners(s, g, h),
{
    let b = lemma_last_occurrence(s, h, s.len() as int);
    let a = lemma_last_occurrence(s, h, b);
    lemma_no_occurrence(s, h, a);
    lemma_occurrences_eq(s, h, a, a);
    assert forall|k: int| a < k < b implies #[trigger] s[k] != s[a] by {}
    assert(matched(s, a, b));
    if h == a {
        b
    } else {
        if h < a {
            assert(s[h] != s[h]);
        }
        if h > b {
            assert(s[h] != s[h]);
        }
        a
    }
}

proof fn lemma_last_occurrence<T>(s: Seq<T>, h: int, n: int) -> (g: int)
    requires
        0 <= n <= s.len(),
        occurrences(s, h, n) > 0,
    ensures
        0 <= g < n,
        s[g] == s[h],
        forall|k: int| g < k < n ==> #[trigger] s[k] != s[h],
        occurrences(s, h, g) == occurrences(s, h, n) - 1,
    decreases n,
{
    if s[n - 1] == s[h] {
        n - 1
    } else {
        lemma_last_occurrence(s, h, n - 1)
    }
}

proof fn lemma_no_occurrence<T>(s: Seq<T>, h: int, n: int)
    requires
        occurrences(s, h, n) == 0,
        0 <= n <= s.len(),
    ensures
        forall|k: int| 0 <= k < n ==> #[trigger] s[k] != s[h],
    decreases n,
{
    if n > 0 {
        lemma_occurrences_nonneg(s, h, n - 1);
        lemma_no_occurrence(s, h, n - 1);
    }
}

proof fn lemma_occurrences_nonneg<T>(s: Seq<T>, h: int, n: int)
    ensures
        occurrences(s, h, n) >= 0,
    decreases n,
{
    if n > 0 {
        lemma_occurrences_nonneg(s, h, n - 1);
    }
}

/// Working memory of a flood, kept across dabs. A triangle is marked with the number of
/// the dab that reached it, so starting the next dab is one counter step.
#[derive(Debug)]
pub struct SplatScratch {
    seen: Vec<u32>,
    gen: u32,
    stack: Vec<usize>,
}

impl Default for SplatScratch {
    fn default() -> (scratch: SplatScratch)
        ensures
            scratch.wf(),
            scratch.tri_count() == 0,
    {
        SplatScratch::new()
    }
}

impl SplatScratch {
    /// No mark is newer than the current dab.
    pub closed spec fn wf(&self) -> bool {
        forall|t: int| 0 <= t < self.seen.len() ==> (#[trigger] self.seen@[t]) <= self.gen
    }

    /// The triangle count the marks are sized for.
    pub closed spec fn tri_count(&self) -> int {
        self.seen.len() as int
    }

    /// Triangle `t` carries the mark `gen`.
    pub closed spec fn marked(&self, t: int, gen: u32) -> bool {
        self.seen@[t] == gen
    }

    /// The triangles still to be looked at.
    pub closed spec fn frontier(&self) -> Seq<usize> {
        self.stack@
    }

    /// The number of the current dab.
    pub closed spec fn generation(&self) -> u32 {
        self.gen
    }

    pub fn new() -> (scratch: SplatScratch)
        ensures
            scratch.wf(),
            scratch.tri_count() == 0,
            scratch.generation() == 0,
            scratch.frontier() == Seq::<usize>::empty(),
    {
        SplatScratch { seen: Vec::new(), gen: 0, stack: Vec::new() }
    }

    /// Starts a flood over `tri_count` triangles: none is marked and the frontier is
    /// empty. Returns the mark to use. Marks are wiped when the mesh changes size or the
    /// counter wraps, so an old mark never reads as a new one.
    pub fn begin(&mut self, tri_count: usize) -> (gen: u32)
        requires
            old(self).wf(),
        ensures
            final(self).wf(),
            final(self).tri_count() == tri_count,
            final(self).frontier() == Seq::<usize>::empty(),
            final(self).generation() == gen,
            gen == if old(self).tri_count() != tri_count || old(self).generation() == u32::MAX {
                1
            } else {
                old(self).generation() + 1
            },
            forall|t: int| 0 <= t < tri_count ==> !#[trigger] final(self).marked(t, gen),
    {
        if self.seen.len() != tri_count {
            self.seen.clear();
            self.seen.resize(tri_count, 0);
            self.gen = 0;
        }
        self.gen = self.gen.wrapping_add(1);
        if self.gen == 0 {
            let n: usize = self.seen.len();
            self.seen.clear();
            self.seen.resize(n, 0);
            self.gen = 1;
        }
        self.stack.clear();
        self.gen
    }
}

/// The answers of `near` all agree with the predicate `n`.
pub open spec fn agrees<N: Fn(usize) -> bool>(near: N, n: spec_fn(usize) -> bool) -> bool {
    forall|t: usize, b: bool| #[trigger] near.ensures((t,), b) ==> b == n(t)
}

/// A flood under way: the frontier, the triangles reached and those walked.
#[verifier::ext_equal]
pub struct Flood {
    pub stack: Seq<usize>,
    pub seen: Set<int>,
    pub out: Seq<usize>,
}

/// Reaches the neighbours of triangle `t` across its edges `e ..`, in order.
pub open spec fn reach_edges(nb: Seq<[i32; 3]>, t: int, e: int, f: Flood) -> Flood
    decreases 3 - e,
{
    if e >= 3 {
        f
    } else {
        let u = nb[t][e] as int;
        let g = if u >= 0 && !f.seen.contains(u) {
            Flood { stack: f.stack.push(u as usize), seen: f.seen.insert(u), out: f.out }
        } else {
            f
        };
        reach_edges(nb, t, e + 1, g)
    }
}

/// The flood after `k` triangles were taken from the frontier. A triangle is walked, and
/// its neighbours reached, when it is the root or `near`.
pub open spec fn flood_after(
    nb: Seq<[i32; 3]>,
    root: usize,
    near: spec_fn(usize) -> bool,
    k: nat,
) -> Flood
    decreases k,
{
    if k == 0 {
        Flood { stack: seq![root], seen: set![root as int], out: Seq::empty() }
    } else {
        let f = flood_after(nb, root, near, (k - 1) as nat);
        if f.stack.len() == 0 {
            f
        } else {
            let t = f.stack.last();
            let g = Flood { stack: f.stack.drop_last(), seen: f.seen, out: f.out };
            if t == root || near(t) {
                reach_edges(
                    nb,
                    t as int,
                    0,
                    Flood { stack: g.stack, seen: g.seen, out: g.out.push(t) },
                )
            } else {
                g
            }
        }
    }
}

/// `faces` is what the flood from `root` walks, in order, once its frontier is empty.
pub open spec fn is_flood(
    nb: Seq<[i32; 3]>,
    root: usize,
    near: spec_fn(usize) -> bool,
    faces: Seq<usize>,
) -> bool {
    exists|k: nat|
        (#[trigger] flood_after(nb, root, near, k)).stack.len() == 0 && flood_after(
            nb,
            root,
            near,
            k,
        ).out == faces
}

/// Triangles `t` and `u` share an edge.
pub open spec fn touching(nb: Seq<[i32; 3]>, t: int, u: int) -> bool {
    exists|e: int| 0 <= e < 3 && #[trigger] nb[t][e] == u
}

/// `path` leads over shared edges from `root` through near triangles only.
pub open spec fn near_path(
    nb: Seq<[i32; 3]>,
    root: usize,
    near: spec_fn(usize) -> bool,
    path: Seq<usize>,
) -> bool {
    &&& path.len() > 0
    &&& path[0] == root
    &&& forall|i: int|
        0 <= i < path.len() ==> (#[trigger] path[i]) < nb.len() && (path[i] == root || near(
            path[i],
        ))
    &&& forall|i: int|
        0 < i < path.len() ==> touching(nb, path[i - 1] as int, #[trigger] path[i] as int)
}

/// Triangle `t` can be reached from `root` over shared edges through near triangles.
pub open spec fn connected(
    nb: Seq<[i32; 3]>,
    root: usize,
    near: spec_fn(usize) -> bool,
    t: usize,
) -> bool {
    exists|path: Seq<usize>| #[trigger]
        near_path(nb, root, near, path) && path.last() == t
}

impl SplatScratch {
    /// The flood that the scratch and the faces walked so far stand for.
    spec fn as_flood(&self, out: Seq<usize>) -> Flood {
        Flood {
            stack: self.stack@,
            seen: Set::new(|t: int| 0 <= t < self.seen.len() && self.seen@[t] == self.gen),
            out: out,
        }
    }

    /// Marks triangle `t` and puts it on the frontier.
    fn reach(&mut self, t: usize)
        requires
            t < old(self).seen.len(),
        ensures
            final(self).seen@ == old(self).seen@.update(t as int, old(self).gen),
            final(self).stack@ == old(self).stack@.push(t),
            final(self).gen == old(self).gen,
    {
        self.seen.set(t, self.gen);
        self.stack.push(t);
    }
}

/// Everything on the frontier is reached and not yet taken, and nothing is there twice.
spec fn frontier_fresh(f: Flood, taken: Set<int>, n: int) -> bool {
    &&& f.stack.no_duplicates()
    &&& forall|i: int|
        0 <= i < f.stack.len() ==> (#[trigger] f.stack[i]) < n && f.seen.contains(
            f.stack[i] as int,
        ) && !taken.contains(f.stack[i] as int)
    &&& forall|t: int| #[trigger] taken.contains(t) ==> 0 <= t < n && f.seen.contains(t)
}

proof fn lemma_taken_bound(taken: Set<int>, n: int)
    requires
        0 <= n,
        forall|t: int| #[trigger] taken.contains(t) ==> 0 <= t < n,
    ensures
        taken.finite(),
        taken.len() <= n,
{
    let all = vstd::set_lib::set_int_range(0, n);
    vstd::set_lib::lemma_int_range(0, n);
    assert(taken.subset_of(all));
    vstd::set_lib::lemma_len_subset(taken, all);
}

/// Walks the surface from triangle `root` over shared edges and returns the triangles a
/// dab covers: the root, and every triangle that `near` accepts and that is reached
/// through others it accepts. Empty when `root` is not a triangle.
pub fn splat_faces<N: Fn(usize) -> bool>(
    adj: &Adjacency,
    root: usize,
    near: N,
    scratch: &mut SplatScratch,
) -> (faces: Vec<usize>)
    requires
        neighbors_wf(adj@),
        old(scratch).wf(),
        forall|t: usize| #[trigger] near.requires((t,)),
    ensures
        final(scratch).wf(),
        root >= adj@.len() ==> faces.len() == 0 && *final(scratch) == *old(scratch),
        root < adj@.len() ==> forall|n: spec_fn(usize) -> bool| #[trigger]
            agrees(near, n) ==> is_flood(adj@, root, n, faces@),
{
    let mut faces: Vec<usize> = Vec::new();
    let tri_count: usize = adj.neighbors.len();
    if root >= tri_count {
        return faces;
    }
    let gen: u32 = scratch.begin(tri_count);
    assert forall|t: int| 0 <= t < tri_count implies (#[trigger] scratch.seen@[t]) != gen by {
        assert(!scratch.marked(t, gen));
    }
    scratch.reach(root);
    let ghost mut k: nat = 0;
    let ghost mut taken: Set<int> = Set::empty();
    proof {
        let f = scratch.as_flood(faces@);
        assert(f.stack =~= seq![root]);
        assert(f.seen =~= set![root as int]);
        assert(f.out =~= Seq::empty());
    }
    while scratch.stack.len() > 0
        invariant
            neighbors_wf(adj@),
            adj@.len() == tri_count,
            root < tri_count,
            forall|t: usize| #[trigger] near.requires((t,)),
            scratch.wf(),
            scratch.seen.len() == tri_count,
            scratch.gen == gen,
            frontier_fresh(scratch.as_flood(faces@), taken, tri_count as int),
            forall|n: spec_fn(usize) -> bool| #[trigger]
                agrees(near, n) ==> flood_after(adj@, root, n, k) == scratch.as_flood(faces@),
        decreases tri_count - taken.len(),
    {
        proof {
            lemma_taken_bound(taken, tri_count as int);
        }
        let ghost before = scratch.as_flood(faces@);
        let t: usize = scratch.stack.pop().unwrap();
        let ghost popped = scratch.as_flood(faces@);
        let ghost old_taken = taken;
        proof {
            assert(popped.stack =~= before.stack.drop_last());
            assert(popped.seen =~= before.seen);
            assert(before.stack[before.stack.len() - 1] == t);
            taken = taken.insert(t as int);
            lemma_taken_bound(taken, tri_count as int);
        }
        let walk: bool = t == root || near(t);
        if walk {
            faces.push(t);
            let ghost start = scratch.as_flood(faces@);
            let mut e: usize = 0;
            while e < 3
                invariant
                    neighbors_wf(adj@),
                    adj@.len() == tri_count,
                    t < tri_count,
                    e <= 3,
                    scratch.wf(),
                    scratch.seen.len() == tri_count,
                    scratch.gen == gen,
                    frontier_fresh(scratch.as_flood(faces@), taken, tri_count as int),
                    reach_edges(adj@, t as int, 0, start) == reach_edges(
                        adj@,
                        t as int,
                        e as int,
                        scratch.as_flood(faces@),
                    ),
                decreases 3 - e,
            {
                let u: i32 = adj.neighbors[t][e];
                let ghost at = scratch.as_flood(faces@);
                if u >= 0 && scratch.seen[u as usize] != gen {
                    scratch.reach(u as usize);
                    proof {
                        let now = scratch.as_flood(faces@);
                        assert(now.seen =~= at.seen.insert(u as int));
                        assert(now.stack =~= at.stack.push(u as usize));
                    }
                }
                e += 1;
            }
        }
        proof {
            assert forall|n: spec_fn(usize) -> bool| #[trigger] agrees(near, n) implies flood_after(
                adj@,
                root,
                n,
                k + 1,
            ) == scratch.as_flood(faces@) by {
                assert(flood_after(adj@, root, n, k) == before);
                assert(walk == (t == root || n(t)));
                if !walk {
                    assert(scratch.as_flood(faces@) =~= popped);
                }
            }
            k = k + 1;
        }
    }
    proof {
        assert forall|n: spec_fn(usize) -> bool| #[trigger] agrees(near, n) implies is_flood(
            adj@,
            root,
            n,
            faces@,
        ) by {
            assert(flood_after(adj@, root, n, k) == scratch.as_flood(faces@));
        }
    }
    faces
}

/// What reaching the neighbours of `t` changes.
proof fn lemma_reach_edges(nb: Seq<[i32; 3]>, t: int, e: int, f: Flood)
    requires
        neighbors_wf(nb),
        nb.len() <= usize::MAX,
        0 <= t < nb.len(),
        0 <= e <= 3,
        f.stack.no_duplicates(),
        forall|i: int| 0 <= i < f.stack.len() ==> f.seen.contains(#[trigger] f.stack[i] as int),
    ensures
        reach_edges(nb, t, e, f).out == f.out,
        reach_edges(nb, t, e, f).stack.no_duplicates(),
        forall|x: int|
            f.seen.contains(x) ==> #[trigger] reach_edges(nb, t, e, f).seen.contains(x),
        forall|i: int|
            e <= i < 3 && #[trigger] nb[t][i] >= 0 ==> reach_edges(nb, t, e, f).seen.contains(
                nb[t][i] as int,
            ),
        forall|x: int| #[trigger]
            reach_edges(nb, t, e, f).seen.contains(x) && !f.seen.contains(x) ==> 0 <= x < nb.len()
                && reach_edges(nb, t, e, f).stack.contains(x as usize),
        forall|x: usize|
            f.stack.contains(x) ==> #[trigger] reach_edges(nb, t, e, f).stack.contains(x),
        forall|x: usize| #[trigger]
            reach_edges(nb, t, e, f).stack.contains(x) ==> reach_edges(nb, t, e, f).seen.contains(
                x as int,
            ) && (f.stack.contains(x) || (!f.seen.contains(x as int) && x < nb.len() && touching(
                nb,
                t,
                x as int,
            ))),
    decreases 3 - e,
{
    broadcast use vstd::seq_lib::group_seq_properties;

    if e < 3 {
        let u = nb[t][e] as int;
        if u >= 0 && !f.seen.contains(u) {
            let g = Flood { stack: f.stack.push(u as usize), seen: f.seen.insert(u), out: f.out };
            assert(g.stack[g.stack.len() - 1] == u as usize);
            assert(!f.stack.contains(u as usize)) by {
                if f.stack.contains(u as usize) {
                    let i = choose|i: int| 0 <= i < f.stack.len() && f.stack[i] == u as usize;
                    assert(f.seen.contains(f.stack[i] as int));
                }
            }
            lemma_reach_edges(nb, t, e + 1, g);
            assert(g.stack.contains(u as usize));
            assert forall|x: usize| #[trigger] reach_edges(nb, t, e, f).stack.contains(x) implies (
            f.stack.contains(x) || (!f.seen.contains(x as int) && x < nb.len() && touching(
                nb,
                t,
                x as int,
            ))) by {
                if g.stack.contains(x) && !f.stack.contains(x) {
                    assert(x == u);
                    assert(nb[t][e] == u);
                }
            }
            assert forall|x: usize| f.stack.contains(x) implies #[trigger] reach_edges(
                nb,
                t,
                e,
                f,
            ).stack.contains(x) by {
                let i = choose|i: int| 0 <= i < f.stack.len() && f.stack[i] == x;
                assert(g.stack[i] == x);
                assert(g.stack.contains(x));
            }
        } else {
            lemma_reach_edges(nb, t, e + 1, f);
            assert forall|i: int| e <= i < 3 && #[trigger] nb[t][i] >= 0 implies reach_edges(
                nb,
                t,
                e,
                f,
            ).seen.contains(nb[t][i] as int) by {
                if i == e {
                    assert(f.seen.contains(u));
                }
            }
        }
    } else {
        assert forall|x: usize| #[trigger] f.stack.contains(x) implies f.seen.contains(
            x as int,
        ) by {
            let i = choose|i: int| 0 <= i < f.stack.len() && f.stack[i] == x;
            assert(f.seen.contains(f.stack[i] as int));
        }
    }
}

/// What holds of a flood at every step.
spec fn flood_inv(
    nb: Seq<[i32; 3]>,
    root: usize,
    near: spec_fn(usize) -> bool,
    f: Flood,
) -> bool {
    &&& f.stack.no_duplicates()
    &&& forall|x: usize| #[trigger]
        f.stack.contains(x) ==> x < nb.len() && f.seen.contains(x as int) && !f.out.contains(x)
            && (x == root || exists|t: usize| #[trigger]
            f.out.contains(t) && touching(nb, t as int, x as int))
    &&& f.out.no_duplicates()
    &&& forall|x: usize| #[trigger]
        f.out.contains(x) ==> f.seen.contains(x as int) && connected(nb, root, near, x)
    &&& forall|x: int| #[trigger]
        f.seen.contains(x) ==> 0 <= x < nb.len() && (f.stack.contains(x as usize) || f.out.contains(
            x as usize,
        ) || (x != root && !near(x as usize)))
    &&& forall|x: usize, e: int|
        f.out.contains(x) && 0 <= e < 3 && #[trigger] nb[x as int][e] >= 0 ==> f.seen.contains(
            nb[x as int][e] as int,
        )
    &&& f.seen.contains(root as int)
}

proof fn lemma_connected_step(
    nb: Seq<[i32; 3]>,
    root: usize,
    near: spec_fn(usize) -> bool,
    t: usize,
    x: usize,
)
    requires
        connected(nb, root, near, t),
        touching(nb, t as int, x as int),
        x < nb.len(),
        x == root || near(x),
    ensures
        connected(nb, root, near, x),
{
    let path = choose|path: Seq<usize>| #[trigger]
        near_path(nb, root, near, path) && path.last() == t;
    let longer = path.push(x);
    assert(near_path(nb, root, near, longer)) by {
        assert forall|i: int| 0 <= i < longer.len() implies (#[trigger] longer[i]) < nb.len() && (
        longer[i] == root || near(longer[i])) by {
            if i < path.len() {
                assert(path[i] == longer[i]);
            }
        }
        assert forall|i: int| 0 < i < longer.len() implies touching(
            nb,
            longer[i - 1] as int,
            #[trigger] longer[i] as int,
        ) by {
            if i < path.len() {
                assert(path[i] == longer[i]);
            }
        }
    }
    assert(longer.last() == x);
}

proof fn lemma_connected_root(nb: Seq<[i32; 3]>, root: usize, near: spec_fn(usize) -> bool)
    requires
        root < nb.len(),
    ensures
        connected(nb, root, near, root),
{
    let path = seq![root];
    assert(near_path(nb, root, near, path));
    assert(path.last() == root);
}

proof fn lemma_flood_inv(nb: Seq<[i32; 3]>, root: usize, near: spec_fn(usize) -> bool, k: nat)
    requires
        neighbors_wf(nb),
        nb.len() <= usize::MAX,
        root < nb.len(),
    ensures
        flood_inv(nb, root, near, flood_after(nb, root, near, k)),
    decreases k,
{
    broadcast use vstd::seq_lib::group_seq_properties;

    if k == 0 {
        let f = flood_after(nb, root, near, 0);
        assert(f.stack[0] == root);
        assert(f.stack.contains(root));
    } else {
        lemma_flood_inv(nb, root, near, (k - 1) as nat);
        let f = flood_after(nb, root, near, (k - 1) as nat);
        if f.stack.len() > 0 {
            let t = f.stack.last();
            assert(f.stack.contains(t));
            let g = Flood { stack: f.stack.drop_last(), seen: f.seen, out: f.out };
            assert forall|x: usize| #[trigger] g.stack.contains(x) <==> f.stack.contains(x) && x
                != t by {
                if g.stack.contains(x) {
                    let i = choose|i: int| 0 <= i < g.stack.len() && g.stack[i] == x;
                    assert(f.stack[i] == x);
                    assert(f.stack[f.stack.len() - 1] == t);
                }
                if f.stack.contains(x) && x != t {
                    let i = choose|i: int| 0 <= i < f.stack.len() && f.stack[i] == x;
                    assert(g.stack[i] == x);
                }
            }
            assert(g.stack.no_duplicates());
            if t == root || near(t) {
                let w = Flood { stack: g.stack, seen: g.seen, out: g.out.push(t) };
                assert forall|x: usize| #[trigger] w.out.contains(x) <==> f.out.contains(x) || x
                    == t by {
                    if f.out.contains(x) {
                        let i = choose|i: int| 0 <= i < f.out.len() && f.out[i] == x;
                        assert(w.out[i] == x);
                    }
                    assert(w.out[w.out.len() - 1] == t);
                }
                assert forall|i: int| 0 <= i < w.stack.len() implies w.seen.contains(
                    #[trigger] w.stack[i] as int,
                ) by {
                    assert(g.stack.contains(w.stack[i]));
                }
                lemma_reach_edges(nb, t as int, 0, w);
                let r = reach_edges(nb, t as int, 0, w);
                assert(connected(nb, root, near, t)) by {
                    if t == root {
                        lemma_connected_root(nb, root, near);
                    } else {
                        let p = choose|p: usize| #[trigger]
                            f.out.contains(p) && touching(nb, p as int, t as int);
                        lemma_connected_step(nb, root, near, p, t);
                    }
                }
                assert forall|x: usize| #[trigger] r.stack.contains(x) implies x < nb.len()
                    && r.seen.contains(x as int) && !r.out.contains(x) && (x == root
                    || exists|p: usize| #[trigger]
                    r.out.contains(p) && touching(nb, p as int, x as int)) by {
                    if w.stack.contains(x) {
                        if x != root {
                            let p = choose|p: usize| #[trigger]
                                f.out.contains(p) && touching(nb, p as int, x as int);
                            assert(r.out.contains(p));
                        }
                    } else {
                        assert(r.out.contains(t) && touching(nb, t as int, x as int));
                        assert(f.seen.contains(t as int));
                        if f.out.contains(x) {
                            assert(f.seen.contains(x as int));
                        }
                    }
                }
                assert forall|x: int| #[trigger] r.seen.contains(x) implies 0 <= x < nb.len() && (
                r.stack.contains(x as usize) || r.out.contains(x as usize) || (x != root && !near(
                    x as usize,
                ))) by {
                    if f.seen.contains(x) {
                        if f.stack.contains(x as usize) {
                            if x as usize != t {
                                assert(w.stack.contains(x as usize));
                            }
                        }
                    }
                }
                assert forall|x: usize, e: int|
                    r.out.contains(x) && 0 <= e < 3 && #[trigger] nb[x as int][e]
                        >= 0 implies r.seen.contains(nb[x as int][e] as int) by {
                    if x != t {
                        assert(f.out.contains(x));
                        assert(f.seen.contains(nb[x as int][e] as int));
                    }
                }
            } else {
                assert forall|x: int| #[trigger] g.seen.contains(x) implies 0 <= x < nb.len() && (
                g.stack.contains(x as usize) || g.out.contains(x as usize) || (x != root && !near(
                    x as usize,
                ))) by {
                    assert(f.seen.contains(x));
                }
            }
        }
    }
}

/// A dab covers exactly the triangles connected to the root through near ones, each once.
/// Unconnected geometry is never reached, however close it lies.
pub proof fn law_flood_covers_the_connected(
    nb: Seq<[i32; 3]>,
    root: usize,
    near: spec_fn(usize) -> bool,
    faces: Seq<usize>,
)
    requires
        neighbors_wf(nb),
        nb.len() <= usize::MAX,
        root < nb.len(),
        is_flood(nb, root, near, faces),
    ensures
        faces.no_duplicates(),
        forall|t: usize| #[trigger] faces.contains(t) <==> connected(nb, root, near, t),
{
    let k = choose|k: nat|
        (#[trigger] flood_after(nb, root, near, k)).stack.len() == 0 && flood_after(
            nb,
            root,
            near,
            k,
        ).out == faces;
    let f = flood_after(nb, root, near, k);
    lemma_flood_inv(nb, root, near, k);
    assert forall|t: usize| connected(nb, root, near, t) implies #[trigger] faces.contains(t) by {
        let path = choose|path: Seq<usize>| #[trigger]
            near_path(nb, root, near, path) && path.last() == t;
        lemma_path_walked(nb, root, near, f, path, path.len() - 1);
    }
}

proof fn lemma_path_walked(
    nb: Seq<[i32; 3]>,
    root: usize,
    near: spec_fn(usize) -> bool,
    f: Flood,
    path: Seq<usize>,
    i: int,
)
    requires
        flood_inv(nb, root, near, f),
        f.stack.len() == 0,
        near_path(nb, root, near, path),
        0 <= i < path.len(),
        nb.len() <= usize::MAX,
    ensures
        f.out.contains(path[i]),
    decreases i,
{
    assert(path[i] < nb.len());
    if i > 0 {
        lemma_path_walked(nb, root, near, f, path, i - 1);
        let t = path[i - 1];
        assert(touching(nb, t as int, path[i] as int));
        let e = choose|e: int| 0 <= e < 3 && #[trigger] nb[t as int][e] == path[i] as int;
        assert(f.seen.contains(nb[t as int][e] as int));
    }
    assert(f.seen.contains(path[i] as int));
}

proof fn lemma_flood_stays(
    nb: Seq<[i32; 3]>,
    root: usize,
    near: spec_fn(usize) -> bool,
    k: nat,
    m: nat,
)
    requires
        flood_after(nb, root, near, k).stack.len() == 0,
        k <= m,
    ensures
        flood_after(nb, root, near, m) == flood_after(nb, root, near, k),
    decreases m,
{
    if k < m {
        lemma_flood_stays(nb, root, near, k, (m - 1) as nat);
    }
}

/// What a dab covers, and in which order, does not depend on what the working memory was
/// used for before.
pub proof fn law_flood_is_determined(
    nb: Seq<[i32; 3]>,
    root: usize,
    near: spec_fn(usize) -> bool,
    a: Seq<usize>,
    b: Seq<usize>,
)
    requires
        is_flood(nb, root, near, a),
        is_flood(nb, root, near, b),
    ensures
        a == b,
{
    let j = choose|k: nat|
        (#[trigger] flood_after(nb, root, near, k)).stack.len() == 0 && flood_after(
            nb,
            root,
            near,
            k,
        ).out == a;
    let k = choose|k: nat|
        (#[trigger] flood_after(nb, root, near, k)).stack.len() == 0 && flood_after(
            nb,
            root,
            near,
            k,
        ).out == b;
    if j <= k {
        lemma_flood_stays(nb, root, near, j, k);
    } else {
        lemma_flood_stays(nb, root, near, k, j);
    }
}

/// The pieces one after the other.
pub open spec fn joined<T>(pieces: Seq<Seq<T>>) -> Seq<T>
    decreases pieces.len(),
{
    if pieces.len() == 0 {
        Seq::empty()
    } else {
        joined(pieces.drop_last()) + pieces.last()
    }
}

/// `piece` is an answer of `shade` for a triangle.
pub open spec fn shaded<T, S: Fn(usize) -> Vec<T>>(shade: S, t: usize, piece: Seq<T>) -> bool {
    exists|v: Vec<T>| #[trigger] shade.ensures((t,), v) && v@ == piece
}

/// The pieces are the answers of `shade` for the triangles, in order.
pub open spec fn all_shaded<T, S: Fn(usize) -> Vec<T>>(
    shade: S,
    faces: Seq<usize>,
    pieces: Seq<Seq<T>>,
) -> bool {
    &&& pieces.len() == faces.len()
    &&& forall|i: int| 0 <= i < faces.len() ==> shaded(shade, faces[i], #[trigger] pieces[i])
}

/// What a dab covers: nothing without a radius or off the mesh, and else what `shade` finds
/// on the triangles the dab floods, in the order they are reached.
pub open spec fn is_splat<T, N: Fn(usize) -> bool, S: Fn(usize) -> Vec<T>>(
    nb: Seq<[i32; 3]>,
    root: usize,
    has_radius: bool,
    near: N,
    shade: S,
    out: Seq<T>,
) -> bool {
    if !has_radius || root >= nb.len() {
        out.len() == 0
    } else {
        exists|faces: Seq<usize>, pieces: Seq<Seq<T>>|
            #![trigger all_shaded(shade, faces, pieces)]
            all_shaded(shade, faces, pieces) && out == joined(pieces) && forall|
                n: spec_fn(usize) -> bool,
            | #[trigger] agrees(near, n) ==> is_flood(nb, root, n, faces)
    }
}

fn shade_faces<T: Copy, N: Fn(usize) -> bool, S: Fn(usize) -> Vec<T>>(
    adj: &Adjacency,
    root: usize,
    has_radius: bool,
    near: N,
    shade: &S,
    scratch: &mut SplatScratch,
) -> (out: Vec<T>)
    requires
        neighbors_wf(adj@),
        old(scratch).wf(),
        forall|t: usize| #[trigger] near.requires((t,)),
        forall|t: usize| #[trigger] shade.requires((t,)),
    ensures
        final(scratch).wf(),
        !has_radius || root >= adj@.len() ==> *final(scratch) == *old(scratch),
        is_splat(adj@, root, has_radius, near, *shade, out@),
{
    let mut out: Vec<T> = Vec::new();
    if !has_radius || root >= adj.neighbors.len() {
        return out;
    }
    let faces = splat_faces(adj, root, near, scratch);
    let ghost mut pieces: Seq<Seq<T>> = Seq::empty();
    let mut i: usize = 0;
    while i < faces.len()
        invariant
            forall|t: usize| #[trigger] shade.requires((t,)),
            i <= faces.len(),
            pieces.len() == i,
            out@ == joined(pieces),
            forall|k: int|
                0 <= k < i ==> shaded(*shade, faces@[k], #[trigger] pieces[k]),
        decreases faces.len() - i,
    {
        let t: usize = faces[i];
        let v = (*shade)(t);
        let ghost before = out@;
        let mut k: usize = 0;
        while k < v.len()
            invariant
                k <= v.len(),
                out@ == before + v@.take(k as int),
            decreases v.len() - k,
        {
            out.push(v[k]);
            assert(v@.take(k + 1) =~= v@.take(k as int).push(v@[k as int]));
            k += 1;
            assert(out@ =~= before + v@.take(k as int));
        }
        proof {
            assert(v@.take(v.len() as int) =~= v@);
            assert(shaded(*shade, t, v@));
            let p2 = pieces.push(v@);
            assert(p2.drop_last() =~= pieces);
            assert forall|k: int| 0 <= k < i + 1 implies shaded(
                *shade,
                faces@[k],
                #[trigger] p2[k],
            ) by {
                if k < i {
                    assert(p2[k] == pieces[k]);
                }
            }
            pieces = p2;
        }
        i += 1;
    }
    assert(all_shaded(*shade, faces@, pieces));
    out
}

/// The texels a dab covers, with their coverage. `near` says whether a triangle comes within
/// the radius, `shade` gives a triangle's covered texels. A texel on a shared edge can come
/// twice.
pub fn splat<N: Fn(usize) -> bool, S: Fn(usize) -> Vec<(usize, u32)>>(
    adj: &Adjacency,
    root: usize,
    has_radius: bool,
    near: N,
    shade: &S,
    scratch: &mut SplatScratch,
) -> (out: Vec<(usize, u32)>)
    requires
        neighbors_wf(adj@),
        old(scratch).wf(),
        forall|t: usize| #[trigger] near.requires((t,)),
        forall|t: usize| #[trigger] shade.requires((t,)),
    ensures
        final(scratch).wf(),
        !has_radius || root >= adj@.len() ==> *final(scratch) == *old(scratch),
        is_splat(adj@, root, has_radius, near, *shade, out@),
{
    shade_faces(adj, root, has_radius, near, shade, scratch)
}

/// The texels within a dab's radius, with their points on the surface.
pub fn splat_world<P: Copy, N: Fn(usize) -> bool, S: Fn(usize) -> Vec<(usize, P)>>(
    adj: &Adjacency,
    root: usize,
    has_radius: bool,
    near: N,
    shade: &S,
    scratch: &mut SplatScratch,
) -> (out: Vec<(usize, P)>)
    requires
        neighbors_wf(adj@),
        old(scratch).wf(),
        forall|t: usize| #[trigger] near.requires((t,)),
        forall|t: usize| #[trigger] shade.requires((t,)),
    ensures
        final(scratch).wf(),
        !has_radius || root >= adj@.len() ==> *final(scratch) == *old(scratch),
        is_splat(adj@, root, has_radius, near, *shade, out@),
{
    shade_faces(adj, root, has_radius, near, shade, scratch)
}

/// A wider flood loses no triangle: where every triangle near for the first is near for the
/// second, the second walks all that the first walks.
pub proof fn law_a_wider_flood_loses_no_triangle(
    nb: Seq<[i32; 3]>,
    root: usize,
    near: spec_fn(usize) -> bool,
    wider: spec_fn(usize) -> bool,
    a: Seq<usize>,
    b: Seq<usize>,
    t: usize,
)
    requires
        neighbors_wf(nb),
        nb.len() <= usize::MAX,
        root < nb.len(),
        is_flood(nb, root, near, a),
        is_flood(nb, root, wider, b),
        forall|u: usize| #[trigger] near(u) ==> wider(u),
        a.contains(t),
    ensures
        b.contains(t),
{
    law_flood_covers_the_connected(nb, root, near, a);
    law_flood_covers_the_connected(nb, root, wider, b);
    let path = choose|path: Seq<usize>| #[trigger]
        near_path(nb, root, near, path) && path.last() == t;
    assert(near_path(nb, root, wider, path));
}

/// How often `x` occurs in a sequence.
pub open spec fn times<T>(s: Seq<T>, x: T) -> nat {
    s.to_multiset().count(x)
}

/// Taking one piece out takes away what occurs in it.
proof fn lemma_joined_remove<T>(pieces: Seq<Seq<T>>, j: int, x: T)
    requires
        0 <= j < pieces.len(),
    ensures
        times(joined(pieces), x) == times(joined(pieces.remove(j)), x) + times(pieces[j], x),
    decreases pieces.len(),
{
    vstd::seq_lib::lemma_multiset_commutative(joined(pieces.drop_last()), pieces.last());
    let rest = pieces.remove(j);
    if j == pieces.len() - 1 {
        assert(rest =~= pieces.drop_last());
    } else {
        lemma_joined_remove(pieces.drop_last(), j, x);
        assert(rest.drop_last() =~= pieces.drop_last().remove(j));
        assert(rest.last() == pieces.last());
        vstd::seq_lib::lemma_multiset_commutative(joined(rest.drop_last()), rest.last());
    }
}

/// Pieces of different triangles that all have their counterpart hold no more than those.
proof fn lemma_joined_times<T>(
    fa: Seq<usize>,
    pa: Seq<Seq<T>>,
    fb: Seq<usize>,
    pb: Seq<Seq<T>>,
    x: T,
)
    requires
        fa.len() == pa.len(),
        fb.len() == pb.len(),
        fa.no_duplicates(),
        forall|i: int| 0 <= i < fa.len() ==> fb.contains(#[trigger] fa[i]),
        forall|i: int, j: int|
            #![trigger pa[i], pb[j]]
            0 <= i < fa.len() && 0 <= j < fb.len() && fa[i] == fb[j] ==> times(pa[i], x) <= times(
                pb[j],
                x,
            ),
    ensures
        times(joined(pa), x) <= times(joined(pb), x),
    decreases fa.len(),
{
    if fa.len() == 0 {
        vstd::seq_lib::to_multiset_contains(joined(pa), x);
    } else {
        let n = fa.len() - 1;
        assert(fb.contains(fa[n]));
        let j = choose|j: int| 0 <= j < fb.len() && fb[j] == fa[n];
        let (fb2, pb2) = (fb.remove(j), pb.remove(j));
        assert forall|i: int| 0 <= i < n implies fb2.contains(#[trigger] fa.drop_last()[i]) by {
            assert(fb.contains(fa[i]));
            let m = choose|m: int| 0 <= m < fb.len() && fb[m] == fa[i];
            assert(m != j);
            if m < j {
                assert(fb2[m] == fa[i]);
            } else {
                assert(fb2[m - 1] == fa[i]);
            }
        }
        assert forall|i: int, m: int|
            #![trigger pa.drop_last()[i], pb2[m]]
            0 <= i < n && 0 <= m < fb2.len() && fa.drop_last()[i] == fb2[m] implies times(
            pa.drop_last()[i],
            x,
        ) <= times(pb2[m], x) by {
            let k = if m < j {
                m
            } else {
                m + 1
            };
            assert(pb2[m] == pb[k] && fb2[m] == fb[k]);
            assert(pa.drop_last()[i] == pa[i]);
        }
        lemma_joined_times(fa.drop_last(), pa.drop_last(), fb2, pb2, x);
        lemma_joined_remove(pb, j, x);
        assert(times(pa[n], x) <= times(pb[j], x));
        vstd::seq_lib::lemma_multiset_commutative(joined(pa.drop_last()), pa.last());
    }
}

/// A wider dab loses no texel: where every triangle near for the first is near for the
/// second, and the second finds at least as much on each, all that the first covers occurs
/// at least as often in the second.
pub proof fn law_a_wider_splat_loses_no_texel<
    T,
    N: Fn(usize) -> bool,
    S: Fn(usize) -> Vec<T>,
    V: Fn(usize) -> bool,
    W: Fn(usize) -> Vec<T>,
>(
    nb: Seq<[i32; 3]>,
    root: usize,
    near: N,
    n: spec_fn(usize) -> bool,
    shade: S,
    a: Seq<T>,
    wider: V,
    v: spec_fn(usize) -> bool,
    fuller: W,
    b: Seq<T>,
    x: T,
)
    requires
        neighbors_wf(nb),
        nb.len() <= usize::MAX,
        is_splat(nb, root, true, near, shade, a),
        is_splat(nb, root, true, wider, fuller, b),
        agrees(near, n),
        agrees(wider, v),
        forall|t: usize| #[trigger] n(t) ==> v(t),
        forall|t: usize, p: Seq<T>, q: Seq<T>|
            #![trigger shaded(shade, t, p), shaded(fuller, t, q)]
            shaded(shade, t, p) && shaded(fuller, t, q) ==> times(p, x) <= times(q, x),
    ensures
        times(a, x) <= times(b, x),
{
    if root < nb.len() {
        let (fa, pa) = choose|faces: Seq<usize>, pieces: Seq<Seq<T>>|
            #![trigger all_shaded(shade, faces, pieces)]
            all_shaded(shade, faces, pieces) && a == joined(pieces) && forall|
                m: spec_fn(usize) -> bool,
            | #[trigger] agrees(near, m) ==> is_flood(nb, root, m, faces);
        let (fb, pb) = choose|faces: Seq<usize>, pieces: Seq<Seq<T>>|
            #![trigger all_shaded(fuller, faces, pieces)]
            all_shaded(fuller, faces, pieces) && b == joined(pieces) && forall|
                m: spec_fn(usize) -> bool,
            | #[trigger] agrees(wider, m) ==> is_flood(nb, root, m, faces);
        assert(is_flood(nb, root, n, fa));
        assert(is_flood(nb, root, v, fb));
        law_flood_covers_the_connected(nb, root, n, fa);
        assert forall|i: int| 0 <= i < fa.len() implies fb.contains(#[trigger] fa[i]) by {
            assert(fa.contains(fa[i]));
            law_a_wider_flood_loses_no_triangle(nb, root, n, v, fa, fb, fa[i]);
        }
        assert forall|i: int, j: int|
            #![trigger pa[i], pb[j]]
            0 <= i < fa.len() && 0 <= j < fb.len() && fa[i] == fb[j] implies times(pa[i], x)
            <= times(pb[j], x) by {
            assert(shaded(shade, fa[i], pa[i]));
            assert(shaded(fuller, fb[j], pb[j]));
        }
        lemma_joined_times(fa, pa, fb, pb, x);
    } else {
        assert(a =~= b);
    }
}

/// The answers of `shade` all agree with the function `f` of the triangle.
pub open spec fn shade_agrees<T, S: Fn(usize) -> Vec<T>>(
    shade: S,
    f: spec_fn(usize) -> Seq<T>,
) -> bool {
    forall|t: usize, v: Vec<T>| #[trigger] shade.ensures((t,), v) ==> v@ == f(t)
}

/// What a dab lays down, and in which order, does not depend on what the working memory was
/// used for before: no state leaks between dabs. Two dabs alike lay the same texels.
pub proof fn law_splat_is_determined<T, N: Fn(usize) -> bool, S: Fn(usize) -> Vec<T>>(
    nb: Seq<[i32; 3]>,
    root: usize,
    has_radius: bool,
    near: N,
    n: spec_fn(usize) -> bool,
    shade: S,
    f: spec_fn(usize) -> Seq<T>,
    a: Seq<T>,
    b: Seq<T>,
)
    requires
        is_splat(nb, root, has_radius, near, shade, a),
        is_splat(nb, root, has_radius, near, shade, b),
        agrees(near, n),
        shade_agrees(shade, f),
    ensures
        a == b,
{
    if has_radius && root < nb.len() {
        let (fa, pa) = choose|faces: Seq<usize>, pieces: Seq<Seq<T>>|
            #![trigger all_shaded(shade, faces, pieces)]
            all_shaded(shade, faces, pieces) && a == joined(pieces) && forall|
                m: spec_fn(usize) -> bool,
            | #[trigger] agrees(near, m) ==> is_flood(nb, root, m, faces);
        let (fb, pb) = choose|faces: Seq<usize>, pieces: Seq<Seq<T>>|
            #![trigger all_shaded(shade, faces, pieces)]
            all_shaded(shade, faces, pieces) && b == joined(pieces) && forall|
                m: spec_fn(usize) -> bool,
            | #[trigger] agrees(near, m) ==> is_flood(nb, root, m, faces);
        assert(is_flood(nb, root, n, fa));
        assert(is_flood(nb, root, n, fb));
        law_flood_is_determined(nb, root, n, fa, fb);
        assert forall|i: int| 0 <= i < pa.len() implies pa[i] == pb[i] by {
            assert(shaded(shade, fa[i], pa[i]));
            assert(shaded(shade, fb[i], pb[i]));
        }
        assert(pa =~= pb);
    } else {
        assert(a =~= b);
    }
}

/// A dab lays nothing but what shading finds: what holds of every texel found on a triangle,
/// such as that its point lies within the radius, holds of every texel laid.
pub proof fn law_a_splat_holds_what_shading_finds<
    T,
    N: Fn(usize) -> bool,
    S: Fn(usize) -> Vec<T>,
>(
    nb: Seq<[i32; 3]>,
    root: usize,
    has_radius: bool,
    near: N,
    shade: S,
    out: Seq<T>,
    holds: spec_fn(T) -> bool,
)
    requires
        is_splat(nb, root, has_radius, near, shade, out),
        forall|t: usize, v: Vec<T>, i: int|
            #![trigger shade.ensures((t,), v), v@[i]]
            shade.ensures((t,), v) && 0 <= i < v.len() ==> holds(v@[i]),
    ensures
        forall|i: int| 0 <= i < out.len() ==> holds(#[trigger] out[i]),
{
    if has_radius && root < nb.len() {
        let (faces, pieces) = choose|faces: Seq<usize>, pieces: Seq<Seq<T>>|
            #![trigger all_shaded(shade, faces, pieces)]
            all_shaded(shade, faces, pieces) && out == joined(pieces) && forall|
                m: spec_fn(usize) -> bool,
            | #[trigger] agrees(near, m) ==> is_flood(nb, root, m, faces);
        assert forall|k: int, i: int|
            #![trigger pieces[k][i]]
            0 <= k < pieces.len() && 0 <= i < pieces[k].len() implies holds(pieces[k][i]) by {
            assert(shaded(shade, faces[k], pieces[k]));
            let v = choose|v: Vec<T>| #[trigger] shade.ensures((faces[k],), v) && v@ == pieces[k];
            assert(holds(v@[i]));
        }
        lemma_joined_holds(pieces, holds);
    }
}

proof fn lemma_joined_holds<T>(pieces: Seq<Seq<T>>, holds: spec_fn(T) -> bool)
    requires
        forall|k: int, i: int|
            #![trigger pieces[k][i]]
            0 <= k < pieces.len() && 0 <= i < pieces[k].len() ==> holds(pieces[k][i]),
    ensures
        forall|i: int| 0 <= i < joined(pieces).len() ==> holds(#[trigger] joined(pieces)[i]),
    decreases pieces.len(),
{
    if pieces.len() > 0 {
        let front = pieces.drop_last();
        assert forall|k: int, i: int|
            #![trigger front[k][i]]
            0 <= k < front.len() && 0 <= i < front[k].len() implies holds(front[k][i]) by {
            assert(front[k][i] == pieces[k][i]);
        }
        lemma_joined_holds(front, holds);
        let all = joined(pieces);
        let n = joined(front).len();
        assert forall|i: int| 0 <= i < all.len() implies holds(#[trigger] all[i]) by {
            if i < n {
                assert(all[i] == joined(front)[i]);
            } else {
                assert(all[i] == pieces[pieces.len() - 1][i - n]);
            }
        }
    }
}

} // verus!
