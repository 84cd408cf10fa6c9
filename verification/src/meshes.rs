//! What connectivity means in terms of positions, and what a dab covers of a surface.

use crate::atlas::Unwrapping;
use crate::mesh::{next_slot, Mesh};
use crate::numbering::{firsts, lemma_firsts, numbers, repeats};
use crate::surface::{
    agrees, all_shaded, connected, edge, edges, is_adjacency, is_flood, is_splat, joined,
    law_flood_covers_the_connected, law_neighbors_are_mutual,
    neighbors_wf, partners, pos_key, shaded, slot,
};
use crate::unwrap::{
    count_in, edge_links, law_neighbors_share_an_edge, law_weld_joins_equal_positions, share_edge,
    welded_edge, welded_edges, WeldKey,
};
use vstd::prelude::*;

verus! {

/// Corner slots `g` and `h` lie at the same place.
pub open spec fn same_place(mesh: &Mesh<i32>, g: int, h: int) -> bool {
    let p = mesh.vertices@[mesh.indices@[g] as int].position;
    let q = mesh.vertices@[mesh.indices@[h] as int].position;
    p[0] == q[0] && p[1] == q[1] && p[2] == q[2]
}

/// The slot after `h` around its triangle.
pub open spec fn following(h: int) -> int {
    3 * (h / 3) + (h + 1) % 3
}

/// The edges from two slots join the same two places.
pub open spec fn same_edge(mesh: &Mesh<i32>, g: int, h: int) -> bool {
    ||| same_place(mesh, g, h) && same_place(mesh, following(g), following(h))
    ||| same_place(mesh, g, following(h)) && same_place(mesh, following(g), h)
}

proof fn lemma_following(h: int)
    requires
        0 <= h,
    ensures
        following(h) == next_slot(h),
{
    let (t, e) = (h / 3, h % 3);
    assert(h == 3 * t + e);
    if e == 2 {
        assert((h + 1) % 3 == 0);
    } else {
        assert((h + 1) % 3 == e + 1);
    }
}

proof fn lemma_same_edge(mesh: &Mesh<i32>, g: int, h: int)
    requires
        0 <= g,
        0 <= h,
    ensures
        edge(mesh, g) == edge(mesh, h) <==> same_edge(mesh, g, h),
{
    lemma_following(g);
    lemma_following(h);
    let (a, b) = (pos_key(mesh, g), pos_key(mesh, next_slot(g)));
    let (c, d) = (pos_key(mesh, h), pos_key(mesh, next_slot(h)));
    let s = edge(mesh, g);
    let t = edge(mesh, h);
    assert(s.contains(a) && s.contains(b));
    assert(t.contains(c) && t.contains(d));
    if s == t {
        assert(t.contains(a) && t.contains(b));
        assert(s.contains(c) && s.contains(d));
    }
    if same_edge(mesh, g, h) {
        assert(s =~= t);
    }
}

/// A triangle across an edge has that edge too: the two join the same two places, whatever
/// vertices and texture places they have there. And it has the first triangle across it.
pub proof fn law_a_neighbour_has_the_same_edge(mesh: &Mesh<i32>, nb: Seq<[i32; 3]>, t: int, e: int)
    requires
        is_adjacency(mesh, nb),
        0 <= t < nb.len(),
        0 <= e < 3,
        nb[t][e] != -1,
    ensures
        0 <= nb[t][e] < nb.len(),
        exists|back: int|
            0 <= back < 3 && #[trigger] nb[nb[t][e] as int][back] == t && same_edge(
                mesh,
                3 * nb[t][e] + back,
                3 * t + e,
            ),
{
    law_neighbors_are_mutual(mesh, nb, t, e);
    let back = choose|back: int|
        0 <= back < 3 && #[trigger] nb[nb[t][e] as int][back] == t && edge(
            mesh,
            3 * nb[t][e] + back,
        ) == edge(mesh, 3 * t + e);
    lemma_same_edge(mesh, 3 * nb[t][e] + back, 3 * t + e);
}

/// An edge that two slots have and no third are neighbours across it; an edge that no other
/// slot has is a boundary.
pub proof fn law_a_shared_edge_makes_neighbours(mesh: &Mesh<i32>, nb: Seq<[i32; 3]>, g: int, h: int)
    requires
        is_adjacency(mesh, nb),
        0 <= g < h < 3 * nb.len(),
        forall|k: int|
            0 <= k < 3 * nb.len() && k != g && k != h ==> !#[trigger] same_edge(mesh, k, g),
    ensures
        same_edge(mesh, h, g) ==> nb[h / 3][h % 3] == g / 3 && nb[g / 3][g % 3] == h / 3,
        !same_edge(mesh, h, g) ==> nb[g / 3][g % 3] == -1,
{
    let es = edges(mesh);
    assert(es.len() == 3 * nb.len());
    assert forall|k: int| 0 <= k < es.len() && k != g && k != h implies #[trigger] es[k]
        != es[g] by {
        lemma_same_edge(mesh, k, g);
        assert(!same_edge(mesh, k, g));
    }
    lemma_same_edge(mesh, h, g);
    assert(es[h] == edge(mesh, h) && es[g] == edge(mesh, g));
    assert(slot(nb, g) == nb[g / 3][g % 3]);
    assert(slot(nb, h) == nb[h / 3][h % 3]);
    lemma_no_earlier(es, g, g);
    if same_edge(mesh, h, g) {
        assert(crate::surface::matched(es, g, h));
        assert(partners(es, g, h));
        assert(partners(es, h, g));
    } else {
        assert forall|k: int| !#[trigger] partners(es, k, g) by {
            if partners(es, k, g) {
                assert(es[k] == es[g]);
            }
        }
    }
}

proof fn lemma_no_earlier<T>(s: Seq<T>, h: int, n: int)
    requires
        0 <= n <= h < s.len(),
        forall|k: int| 0 <= k < n ==> #[trigger] s[k] != s[h],
    ensures
        crate::surface::occurrences(s, h, n) == 0,
    decreases n,
{
    if n > 0 {
        lemma_no_earlier(s, h, n - 1);
        assert(s[n - 1] != s[h]);
    }
}

/// Edges of the welded mesh are the same when they join the same two welded vertices.
pub proof fn law_welded_edges_join_two_vertices<F>(mesh: &Mesh<F>, weld: Seq<u32>, g: int, h: int)
    requires
        0 <= g,
        0 <= h,
    ensures
        ({
            let a = weld[mesh.indices@[g] as int];
            let b = weld[mesh.indices@[following(g)] as int];
            let c = weld[mesh.indices@[h] as int];
            let d = weld[mesh.indices@[following(h)] as int];
            welded_edge(mesh, weld, g) == welded_edge(mesh, weld, h) <==> (a == c && b == d) || (a
                == d && b == c)
        }),
{
    lemma_following(g);
    lemma_following(h);
    let a = weld[mesh.indices@[g] as int];
    let b = weld[mesh.indices@[following(g)] as int];
    let c = weld[mesh.indices@[h] as int];
    let d = weld[mesh.indices@[following(h)] as int];
    let s = welded_edge(mesh, weld, g);
    let t = welded_edge(mesh, weld, h);
    assert(s.contains(a) && s.contains(b));
    assert(t.contains(c) && t.contains(d));
    if s == t {
        assert(t.contains(a) && t.contains(b));
        assert(s.contains(c) && s.contains(d));
    }
    if (a == c && b == d) || (a == d && b == c) {
        assert(s =~= t);
    }
}

proof fn lemma_first_is_new<T>(s: Seq<T>, n: int, k: int)
    requires
        0 <= n <= s.len(),
        0 <= k < firsts(s, n).len(),
    ensures
        0 <= firsts(s, n)[k] < n,
        !repeats(s, firsts(s, n)[k]),
    decreases n,
{
    if n > 0 && k < firsts(s, n - 1).len() {
        lemma_first_is_new(s, n - 1, k);
    }
}

/// Values are numbered as they come: the first has number 0, a value seen before has the
/// number it had, and a new one a greater number than every one before it.
pub proof fn law_numbers_count_up<T>(s: Seq<T>, ids: Seq<u32>, i: int, j: int)
    requires
        numbers(s, ids),
        0 <= j < i < s.len(),
    ensures
        ids[0] == 0,
        s[i] == s[j] <==> ids[i] == ids[j],
        !repeats(s, i) ==> ids[j] < ids[i],
{
    let n = s.len() as int;
    let f = firsts(s, n);
    lemma_firsts(s, n);
    assert(ids[i] < f.len() && s[f[ids[i] as int]] == s[i]);
    assert(ids[j] < f.len() && s[f[ids[j] as int]] == s[j]);
    assert(ids[0] < f.len() && s[f[ids[0] as int]] == s[0]);
    lemma_first_is_new(s, n, ids[j] as int);
    lemma_first_is_new(s, n, ids[i] as int);
    lemma_first_is_new(s, n, ids[0] as int);
    let (a, b) = (ids[i] as int, ids[j] as int);
    assert(f[b] <= j) by {
        if f[b] > j {
            assert(repeats(s, f[b]));
        }
    }
    assert(f[a] <= i) by {
        if f[a] > i {
            assert(repeats(s, f[a]));
        }
    }
    assert(f[ids[0] as int] == 0) by {
        if f[ids[0] as int] > 0 {
            assert(repeats(s, f[ids[0] as int]));
        }
    }
    if ids[0] > 0 {
        assert(f[0] < f[ids[0] as int]);
    }
    if !repeats(s, i) {
        if f[a] < i {
            assert(repeats(s, i));
        }
        if a <= b {
            if a < b {
                assert(f[a] < f[b]);
            }
        }
    }
    if s[i] == s[j] && a != b {
        if a < b {
            assert(s[f[a]] != s[f[b]]);
        } else {
            assert(s[f[b]] != s[f[a]]);
        }
    }
}

proof fn lemma_joined_has<T>(pieces: Seq<Seq<T>>, k: int, x: T)
    requires
        0 <= k < pieces.len(),
        pieces[k].contains(x),
    ensures
        joined(pieces).contains(x),
    decreases pieces.len(),
{
    let front = pieces.drop_last();
    let all = joined(pieces);
    if k < front.len() {
        assert(front[k] == pieces[k]);
        lemma_joined_has(front, k, x);
        let i = choose|i: int| 0 <= i < joined(front).len() && joined(front)[i] == x;
        assert(all[i] == x);
    } else {
        let i = choose|i: int| 0 <= i < pieces[k].len() && pieces[k][i] == x;
        assert(all[joined(front).len() + i] == x);
    }
}

/// A dab lays all that shading finds: on every triangle that is joined to the one under the
/// cursor through triangles within the radius. Without a radius, or off the mesh, it lays
/// nothing.
pub proof fn law_a_splat_lays_all_that_shading_finds<
    T,
    N: Fn(usize) -> bool,
    S: Fn(usize) -> Vec<T>,
>(
    nb: Seq<[i32; 3]>,
    root: usize,
    has_radius: bool,
    near: N,
    n: spec_fn(usize) -> bool,
    shade: S,
    out: Seq<T>,
    t: usize,
)
    requires
        neighbors_wf(nb),
        nb.len() <= usize::MAX,
        is_splat(nb, root, has_radius, near, shade, out),
        agrees(near, n),
    ensures
        !has_radius || root >= nb.len() ==> out.len() == 0,
        has_radius && root < nb.len() && connected(nb, root, n, t) ==> exists|v: Vec<T>| #[trigger]
            shade.ensures((t,), v) && forall|i: int|
                0 <= i < v@.len() ==> out.contains(#[trigger] v@[i]),
{
    if has_radius && root < nb.len() && connected(nb, root, n, t) {
        let (faces, pieces) = choose|faces: Seq<usize>, pieces: Seq<Seq<T>>|
            #![trigger all_shaded(shade, faces, pieces)]
            all_shaded(shade, faces, pieces) && out == joined(pieces) && forall|
                m: spec_fn(usize) -> bool,
            | #[trigger] agrees(near, m) ==> is_flood(nb, root, m, faces);
        assert(is_flood(nb, root, n, faces));
        law_flood_covers_the_connected(nb, root, n, faces);
        assert(faces.contains(t));
        let k = choose|k: int| 0 <= k < faces.len() && faces[k] == t;
        assert(shaded(shade, faces[k], pieces[k]));
        let v = choose|v: Vec<T>| #[trigger] shade.ensures((faces[k],), v) && v@ == pieces[k];
        assert forall|i: int| 0 <= i < v@.len() implies out.contains(#[trigger] v@[i]) by {
            assert(pieces[k].contains(v@[i]));
            lemma_joined_has(pieces, k, v@[i]);
        }
    }
}

/// The triangle under the cursor is always covered, and one that shares an edge with a covered
/// one is covered where it is within the radius.
pub proof fn law_a_flood_spreads_over_edges(
    nb: Seq<[i32; 3]>,
    root: usize,
    near: spec_fn(usize) -> bool,
    faces: Seq<usize>,
    t: usize,
    e: int,
)
    requires
        neighbors_wf(nb),
        nb.len() <= usize::MAX,
        root < nb.len(),
        is_flood(nb, root, near, faces),
        faces.contains(t),
        t < nb.len(),
        0 <= e < 3,
    ensures
        faces.contains(root),
        t == root || near(t),
        nb[t as int][e] >= 0 && near(nb[t as int][e] as usize) ==> faces.contains(
            nb[t as int][e] as usize,
        ),
{
    law_flood_covers_the_connected(nb, root, near, faces);
    let one = seq![root];
    assert(crate::surface::near_path(nb, root, near, one));
    assert(one.last() == root);
    assert(connected(nb, root, near, root));
    let path = choose|path: Seq<usize>| #[trigger]
        crate::surface::near_path(nb, root, near, path) && path.last() == t;
    assert(path[path.len() - 1] == t);
    if nb[t as int][e] >= 0 && near(nb[t as int][e] as usize) {
        let u = nb[t as int][e] as usize;
        let longer = path.push(u);
        assert(crate::surface::touching(nb, t as int, u as int));
        assert forall|i: int| 0 <= i < longer.len() implies (#[trigger] longer[i]) < nb.len() && (
        longer[i] == root || near(longer[i])) by {
            if i < path.len() {
                assert(path[i] < nb.len());
            }
        }
        assert forall|i: int| 0 < i < longer.len() implies crate::surface::touching(
            nb,
            longer[i - 1] as int,
            #[trigger] longer[i] as int,
        ) by {
            if i < path.len() {
                assert(crate::surface::touching(nb, path[i - 1] as int, path[i] as int));
            }
        }
        assert(crate::surface::near_path(nb, root, near, longer));
        assert(longer.last() == u);
        assert(connected(nb, root, near, u));
    }
}

proof fn lemma_counted(s: Seq<usize>, b: int)
    ensures
        count_in(s, b) >= 0,
        count_in(s, b) > 0 <==> exists|i: int| 0 <= i < s.len() && #[trigger] s[i] == b,
    decreases s.len(),
{
    if s.len() > 0 {
        let front = s.drop_last();
        lemma_counted(front, b);
        if count_in(front, b) > 0 {
            let i = choose|i: int| 0 <= i < front.len() && #[trigger] front[i] == b;
            assert(s[i] == b);
        }
        if exists|i: int| 0 <= i < s.len() && #[trigger] s[i] == b {
            let i = choose|i: int| 0 <= i < s.len() && #[trigger] s[i] == b;
            if i < front.len() {
                assert(front[i] == b);
            }
        }
        if s.last() == b {
            assert(s[s.len() - 1] == b);
        }
    }
}

/// The edges from two slots join the same two places of the welding grid.
pub open spec fn meets<F>(mesh: &Mesh<F>, keys: Seq<WeldKey>, g: int, h: int) -> bool {
    let a = keys[mesh.indices@[g] as int];
    let b = keys[mesh.indices@[following(g)] as int];
    let c = keys[mesh.indices@[h] as int];
    let d = keys[mesh.indices@[following(h)] as int];
    (a == c && b == d) || (a == d && b == c)
}

/// Two triangles of an unwrap are neighbours exactly when an edge of one joins the same two
/// places as an edge of the other, whatever vertices they have there.
pub proof fn law_neighbours_meet_at_an_edge<F, P, R>(
    u: Unwrapping<F, P, R>,
    mesh: &Mesh<F>,
    keys: Seq<WeldKey>,
    a: int,
    b: int,
)
    requires
        mesh.wf(),
        keys.len() == mesh.vertices@.len(),
        u.welded(mesh, keys),
        0 <= a < u.adj@.len(),
        0 <= b < u.adj@.len(),
        a != b,
    ensures
        u.adj@.len() == mesh.indices@.len() as int / 3,
        (exists|i: int| 0 <= i < u.adj@[a]@.len() && #[trigger] u.adj@[a]@[i] == b)
            <==> exists|g: int, h: int|
            3 * a <= g < 3 * a + 3 && 3 * b <= h < 3 * b + 3 && #[trigger] meets(mesh, keys, g, h),
{
    let es = welded_edges(mesh, u.weld@);
    lemma_counted(u.adj@[a]@, b);
    law_neighbors_share_an_edge(es, a, b, es.len() as int);
    assert(count_in(u.adj@[a]@, b) == edge_links(es, a, b, es.len() as int));
    assert forall|g: int, h: int|
        0 <= g < es.len() && 0 <= h < es.len() implies (#[trigger] meets(mesh, keys, g, h)
        <==> es[g] == es[h]) by {
        lemma_following(g);
        lemma_following(h);
        law_welded_edges_join_two_vertices(mesh, u.weld@, g, h);
        let n = keys.len() as int;
        let (p, q) = (mesh.indices@[g] as int, mesh.indices@[following(g)] as int);
        let (s, t) = (mesh.indices@[h] as int, mesh.indices@[following(h)] as int);
        assert(p < n && q < n && s < n && t < n);
        law_weld_joins_equal_positions(keys, u.weld@, p, s);
        law_weld_joins_equal_positions(keys, u.weld@, q, t);
        law_weld_joins_equal_positions(keys, u.weld@, p, t);
        law_weld_joins_equal_positions(keys, u.weld@, q, s);
        assert(es[g] == welded_edge(mesh, u.weld@, g));
        assert(es[h] == welded_edge(mesh, u.weld@, h));
    }
    if exists|g: int, h: int|
        3 * a <= g < 3 * a + 3 && 3 * b <= h < 3 * b + 3 && #[trigger] meets(mesh, keys, g, h) {
        let (g, h) = choose|g: int, h: int|
            3 * a <= g < 3 * a + 3 && 3 * b <= h < 3 * b + 3 && #[trigger] meets(mesh, keys, g, h);
        assert(share_edge(es, a, b, g, h));
    }
    if exists|g: int, h: int|
        0 <= g < es.len() && 0 <= h < es.len() && #[trigger] share_edge(es, a, b, g, h) {
        let (g, h) = choose|g: int, h: int|
            0 <= g < es.len() && 0 <= h < es.len() && #[trigger] share_edge(es, a, b, g, h);
        assert(meets(mesh, keys, g, h));
    }
}

} // verus!
