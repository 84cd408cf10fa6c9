//! Grouping triangles by the edges they share.

use crate::unwrap::{adjacency_wf, count_in, edge_links, one_if, slot_links};
use std::collections::HashMap;
use vstd::prelude::*;

verus! {

/// The triangles of the first `n` slots that lie on the edge of slot `r`, in slot order.
pub open spec fn sharers<T>(es: Seq<T>, r: int, n: int) -> Seq<usize>
    decreases n,
{
    if n <= 0 {
        Seq::empty()
    } else if es[n - 1] == es[r] {
        sharers(es, r, n - 1).push(((n - 1) / 3) as usize)
    } else {
        sharers(es, r, n - 1)
    }
}

/// `firsts` holds one slot for every edge of the first `n` slots.
pub open spec fn names_edges<T>(es: Seq<T>, firsts: Seq<int>, n: int) -> bool {
    &&& forall|i: int| 0 <= i < firsts.len() ==> 0 <= #[trigger] firsts[i] < n
    &&& forall|i: int, j: int|
        0 <= i < j < firsts.len() ==> es[#[trigger] firsts[i]] != es[#[trigger] firsts[j]]
    &&& forall|h: int| 0 <= h < n ==> on_edge(es, firsts, #[trigger] es[h])
}

/// One of the slots lies on the edge.
pub open spec fn on_edge<T>(es: Seq<T>, firsts: Seq<int>, edge: T) -> bool {
    exists|k: int| 0 <= k < firsts.len() && es[#[trigger] firsts[k]] == edge
}

/// What triangle `a` gets listed when triangles `s` and `t` are made neighbours.
pub open spec fn linked(s: usize, t: usize, a: int) -> Seq<usize> {
    (if s == a {
        seq![t]
    } else {
        Seq::empty()
    }) + (if t == a {
        seq![s]
    } else {
        Seq::empty()
    })
}

/// What triangle `a` gets listed when sharer `i` meets those after it, up to `j`.
pub open spec fn row_list(tris: Seq<usize>, a: int, i: int, j: int) -> Seq<usize>
    decreases j - i,
{
    if j <= i + 1 {
        Seq::empty()
    } else {
        row_list(tris, a, i, j - 1) + linked(tris[i], tris[j - 1], a)
    }
}

/// What triangle `a` gets listed when the first `m` sharers of an edge meet those after them.
pub open spec fn edge_list(tris: Seq<usize>, a: int, m: int) -> Seq<usize>
    decreases m,
{
    if m <= 0 {
        Seq::empty()
    } else {
        edge_list(tris, a, m - 1) + row_list(tris, a, m - 1, tris.len() as int)
    }
}

/// The neighbours of triangle `a` over the first `k` edges, edge by edge.
pub open spec fn neighbor_list<T>(es: Seq<T>, firsts: Seq<int>, a: int, k: int) -> Seq<usize>
    decreases k,
{
    if k <= 0 {
        Seq::empty()
    } else {
        let tris = sharers(es, firsts[k - 1], es.len() as int);
        neighbor_list(es, firsts, a, k - 1) + edge_list(tris, a, tris.len() as int)
    }
}

/// The neighbours of every triangle are listed edge by edge, the edges in some order, and
/// the sharers of one edge in slot order.
pub open spec fn is_listed<T>(es: Seq<T>, adj: Seq<Vec<usize>>) -> bool {
    exists|firsts: Seq<int>| #[trigger]
        names_edges(es, firsts, es.len() as int) && forall|a: int|
            0 <= a < adj.len() ==> (#[trigger] adj[a])@ == neighbor_list(
                es,
                firsts,
                a,
                firsts.len() as int,
            )
}

proof fn lemma_sharers_none<T>(es: Seq<T>, r: int, n: int)
    requires
        forall|h: int| 0 <= h < n ==> #[trigger] es[h] != es[r],
    ensures
        sharers(es, r, n).len() == 0,
    decreases n,
{
    if n > 0 {
        lemma_sharers_none(es, r, n - 1);
        assert(es[n - 1] != es[r]);
    }
}

/// Sharers are triangles of the mesh.
proof fn lemma_sharers_bound<T>(es: Seq<T>, r: int, n: int, k: int)
    requires
        0 <= n <= usize::MAX,
        0 <= k < sharers(es, r, n).len(),
    ensures
        3 * sharers(es, r, n)[k] < n,
    decreases n,
{
    if n > 0 && k < sharers(es, r, n - 1).len() {
        lemma_sharers_bound(es, r, n - 1, k);
    }
}

proof fn lemma_sharers_same<T, U>(s: Seq<T>, t: Seq<U>, r: int, n: int)
    requires
        s.len() == t.len(),
        0 <= n <= s.len(),
        0 <= r < s.len(),
        forall|i: int, j: int|
            0 <= i < s.len() && 0 <= j < s.len() ==> (#[trigger] s[i] == #[trigger] s[j] <==> t[i]
                == t[j]),
    ensures
        sharers(s, r, n) == sharers(t, r, n),
    decreases n,
{
    if n > 0 {
        lemma_sharers_same(s, t, r, n - 1);
        assert(s[n - 1] == s[r] <==> t[n - 1] == t[r]);
    }
}

proof fn lemma_neighbor_list_same<T, U>(s: Seq<T>, t: Seq<U>, firsts: Seq<int>, a: int, k: int)
    requires
        s.len() == t.len(),
        names_edges(t, firsts, t.len() as int),
        0 <= k <= firsts.len(),
        forall|i: int, j: int|
            0 <= i < s.len() && 0 <= j < s.len() ==> (#[trigger] s[i] == #[trigger] s[j] <==> t[i]
                == t[j]),
    ensures
        neighbor_list(s, firsts, a, k) == neighbor_list(t, firsts, a, k),
    decreases k,
{
    if k > 0 {
        lemma_neighbor_list_same(s, t, firsts, a, k - 1);
        lemma_sharers_same(s, t, firsts[k - 1], s.len() as int);
    }
}

/// Lists for one numbering of the edges are lists for any that tells the same edges apart.
pub(crate) proof fn lemma_listed_same<T, U>(s: Seq<T>, t: Seq<U>, adj: Seq<Vec<usize>>)
    requires
        s.len() == t.len(),
        is_listed(t, adj),
        forall|i: int, j: int|
            0 <= i < s.len() && 0 <= j < s.len() ==> (#[trigger] s[i] == #[trigger] s[j] <==> t[i]
                == t[j]),
    ensures
        is_listed(s, adj),
{
    let firsts = choose|firsts: Seq<int>| #[trigger]
        names_edges(t, firsts, t.len() as int) && forall|a: int|
            0 <= a < adj.len() ==> (#[trigger] adj[a])@ == neighbor_list(
                t,
                firsts,
                a,
                firsts.len() as int,
            );
    assert forall|h: int| 0 <= h < s.len() implies on_edge(s, firsts, #[trigger] s[h]) by {
        assert(on_edge(t, firsts, t[h]));
        let k = choose|k: int| 0 <= k < firsts.len() && t[#[trigger] firsts[k]] == t[h];
        assert(s[firsts[k]] == s[h]);
    }
    assert(names_edges(s, firsts, s.len() as int));
    assert forall|a: int| 0 <= a < adj.len() implies (#[trigger] adj[a])@ == neighbor_list(
        s,
        firsts,
        a,
        firsts.len() as int,
    ) by {
        lemma_neighbor_list_same(s, t, firsts, a, firsts.len() as int);
    }
}

/// The sharers of every edge, the edges in the order of their first slots.
pub(crate) fn group_slots(keys: &Vec<u64>) -> (r: (Vec<Vec<usize>>, Ghost<Seq<int>>))
    ensures
        names_edges(keys@, r.1@, keys.len() as int),
        r.0.len() == r.1@.len(),
        forall|k: int|
            0 <= k < r.0.len() ==> (#[trigger] r.0@[k])@ == sharers(
                keys@,
                r.1@[k],
                keys.len() as int,
            ),
{
    let mut index: HashMap<u64, usize> = HashMap::new();
    let mut groups: Vec<Vec<usize>> = Vec::new();
    let ghost mut firsts: Seq<int> = Seq::empty();
    let mut h: usize = 0;
    while h < keys.len()
        invariant
            h <= keys.len(),
            groups.len() == firsts.len(),
            names_edges(keys@, firsts, h as int),
            forall|k: int|
                0 <= k < groups.len() ==> (#[trigger] groups@[k])@ == sharers(
                    keys@,
                    firsts[k],
                    h as int,
                ),
            forall|key: u64| #[trigger]
                index@.contains_key(key) ==> index@[key] < groups.len()
                    && keys@[firsts[index@[key] as int]] == key,
            forall|k: int|
                0 <= k < firsts.len() ==> index@.contains_key(keys@[#[trigger] firsts[k]]),
        decreases keys.len() - h,
    {
        let key: u64 = keys[h];
        let found: Option<usize> = match index.get(&key) {
            Some(k) => Some(*k),
            None => None,
        };
        let ghost old_groups = groups@;
        let ghost old_firsts = firsts;
        match found {
            Some(k) => {
                groups[k].push(h / 3);
                proof {
                    assert(keys@[firsts[k as int]] == key);
                    assert forall|j: int| 0 <= j < groups.len() implies (#[trigger] groups@[j])@
                        == sharers(keys@, firsts[j], h + 1) by {
                        if j != k {
                            assert(groups@[j] == old_groups[j]);
                            if j < k {
                                assert(keys@[firsts[j]] != keys@[firsts[k as int]]);
                            } else {
                                assert(keys@[firsts[k as int]] != keys@[firsts[j]]);
                            }
                        }
                    }
                    assert(on_edge(keys@, firsts, key));
                }
            },
            None => {
                let mut one: Vec<usize> = Vec::new();
                one.push(h / 3);
                groups.push(one);
                index.insert(key, groups.len() - 1);
                proof {
                    firsts = firsts.push(h as int);
                    assert forall|j: int| 0 <= j < h implies #[trigger] keys@[j] != keys@[h as int] by {
                        assert(on_edge(keys@, old_firsts, keys@[j]));
                        let k = choose|k: int|
                            0 <= k < old_firsts.len() && keys@[#[trigger] old_firsts[k]] == keys@[j];
                    }
                    lemma_sharers_none(keys@, h as int, h as int);
                    assert(one@ =~= sharers(keys@, h as int, h + 1));
                    assert forall|j: int| 0 <= j < groups.len() implies (#[trigger] groups@[j])@
                        == sharers(keys@, firsts[j], h + 1) by {
                        if j < old_groups.len() {
                            assert(groups@[j] == old_groups[j]);
                            assert(firsts[j] == old_firsts[j]);
                            assert(keys@[old_firsts[j]] != key);
                        }
                    }
                    assert forall|j: int| 0 <= j < h + 1 implies on_edge(
                        keys@,
                        firsts,
                        #[trigger] keys@[j],
                    ) by {
                        if j < h {
                            assert(on_edge(keys@, old_firsts, keys@[j]));
                            let k = choose|k: int|
                                0 <= k < old_firsts.len() && keys@[#[trigger] old_firsts[k]]
                                    == keys@[j];
                            assert(firsts[k] == old_firsts[k]);
                        } else {
                            assert(firsts[old_firsts.len() as int] == h);
                        }
                    }
                    assert forall|k: int| 0 <= k < firsts.len() implies index@.contains_key(
                        keys@[#[trigger] firsts[k]],
                    ) by {
                        if k < old_firsts.len() {
                            assert(firsts[k] == old_firsts[k]);
                        }
                    }
                }
            },
        }
        h += 1;
    }
    (groups, Ghost(firsts))
}

/// Makes every two sharers of an edge neighbours.
pub(crate) fn link_sharers(adj: &mut Vec<Vec<usize>>, tris: &Vec<usize>)
    requires
        adjacency_wf(old(adj)@, old(adj).len() as int),
        forall|k: int| 0 <= k < tris.len() ==> (#[trigger] tris@[k]) < old(adj).len(),
    ensures
        final(adj).len() == old(adj).len(),
        adjacency_wf(final(adj)@, final(adj).len() as int),
        forall|a: int|
            0 <= a < final(adj).len() ==> (#[trigger] final(adj)@[a])@ == old(adj)@[a]@ + edge_list(
                tris@,
                a,
                tris.len() as int,
            ),
{
    let ghost start = adj@;
    let n: usize = tris.len();
    let mut i: usize = 0;
    assert forall|a: int| 0 <= a < adj.len() implies (#[trigger] adj@[a])@ == start[a]@ + edge_list(
        tris@,
        a,
        0,
    ) by {
        assert(start[a]@ + edge_list(tris@, a, 0) =~= start[a]@);
    }
    while i < n
        invariant
            i <= n == tris.len(),
            adj.len() == start.len(),
            adjacency_wf(adj@, adj.len() as int),
            forall|k: int| 0 <= k < tris.len() ==> (#[trigger] tris@[k]) < adj.len(),
            forall|a: int|
                0 <= a < adj.len() ==> (#[trigger] adj@[a])@ == start[a]@ + edge_list(
                    tris@,
                    a,
                    i as int,
                ),
        decreases n - i,
    {
        let mut j: usize = i + 1;
        assert forall|a: int| 0 <= a < adj.len() implies (#[trigger] adj@[a])@ == start[a]@
            + edge_list(tris@, a, i as int) + row_list(tris@, a, i as int, j as int) by {
            assert(adj@[a]@ + row_list(tris@, a, i as int, j as int) =~= adj@[a]@);
        }
        while j < n
            invariant
                i < j <= n == tris.len(),
                adj.len() == start.len(),
                adjacency_wf(adj@, adj.len() as int),
                forall|k: int| 0 <= k < tris.len() ==> (#[trigger] tris@[k]) < adj.len(),
                forall|a: int|
                    0 <= a < adj.len() ==> (#[trigger] adj@[a])@ == start[a]@ + edge_list(
                        tris@,
                        a,
                        i as int,
                    ) + row_list(tris@, a, i as int, j as int),
            decreases n - j,
        {
            let s: usize = tris[i];
            let t: usize = tris[j];
            let ghost before = adj@;
            adj[s].push(t);
            let ghost mid = adj@;
            adj[t].push(s);
            proof {
                assert forall|a: int| 0 <= a < adj.len() implies (#[trigger] adj@[a])@
                    == start[a]@ + edge_list(tris@, a, i as int) + row_list(
                    tris@,
                    a,
                    i as int,
                    j + 1,
                ) by {
                    assert(before[a]@ == start[a]@ + edge_list(tris@, a, i as int) + row_list(
                        tris@,
                        a,
                        i as int,
                        j as int,
                    ));
                    assert(adj@[a]@ =~= before[a]@ + linked(s, t, a));
                    assert(before[a]@ + linked(s, t, a) =~= start[a]@ + edge_list(
                        tris@,
                        a,
                        i as int,
                    ) + (row_list(tris@, a, i as int, j as int) + linked(s, t, a)));
                }
                assert forall|a: int, k: int|
                    0 <= a < adj@.len() && 0 <= k < adj@[a]@.len() implies (
                #[trigger] adj@[a]@[k]) < adj.len() by {
                    if k < before[a]@.len() {
                        assert(before[a]@[k] < adj.len());
                    }
                    assert(mid[a]@.len() > k ==> mid[a]@[k] < adj.len());
                }
            }
            j += 1;
        }
        proof {
            assert forall|a: int| 0 <= a < adj.len() implies (#[trigger] adj@[a])@ == start[a]@
                + edge_list(tris@, a, i + 1) by {
                assert(adj@[a]@ =~= start[a]@ + (edge_list(tris@, a, i as int) + row_list(
                    tris@,
                    a,
                    i as int,
                    n as int,
                )));
            }
        }
        i += 1;
    }
}

/// How often making triangle `t` a neighbour of each of `tris` lists `b` for `a`.
spec fn cross(tris: Seq<usize>, t: usize, a: int, b: int) -> int
    decreases tris.len(),
{
    if tris.len() == 0 {
        0
    } else {
        cross(tris.drop_last(), t, a, b) + one_if(tris.last() == a && t == b) + one_if(
            t == a && tris.last() == b,
        )
    }
}

/// How often making all of `tris` neighbours lists `b` for `a`.
spec fn pairs(tris: Seq<usize>, a: int, b: int) -> int
    decreases tris.len(),
{
    if tris.len() == 0 {
        0
    } else {
        pairs(tris.drop_last(), a, b) + cross(tris.drop_last(), tris.last(), a, b)
    }
}

proof fn lemma_count_add(s: Seq<usize>, t: Seq<usize>, b: int)
    ensures
        count_in(s + t, b) == count_in(s, b) + count_in(t, b),
    decreases t.len(),
{
    if t.len() == 0 {
        assert(s + t =~= s);
    } else {
        lemma_count_add(s, t.drop_last(), b);
        assert((s + t).drop_last() =~= s + t.drop_last());
    }
}

proof fn lemma_count_linked(s: usize, t: usize, a: int, b: int)
    ensures
        count_in(linked(s, t, a), b) == one_if(s == a && t == b) + one_if(t == a && s == b),
{
    let x: Seq<usize> = if s == a {
        seq![t]
    } else {
        Seq::empty()
    };
    let y: Seq<usize> = if t == a {
        seq![s]
    } else {
        Seq::empty()
    };
    lemma_count_add(x, y, b);
    reveal_with_fuel(count_in, 2);
    assert(x.len() > 0 ==> x.drop_last().len() == 0);
    assert(y.len() > 0 ==> y.drop_last().len() == 0);
}

proof fn lemma_row_prefix(tris: Seq<usize>, a: int, i: int, j: int)
    requires
        tris.len() > 0,
        0 <= i,
        j <= tris.len() - 1,
    ensures
        row_list(tris, a, i, j) == row_list(tris.drop_last(), a, i, j),
    decreases j - i,
{
    if j > i + 1 {
        lemma_row_prefix(tris, a, i, j - 1);
    }
}

/// One more sharer adds its meetings with the others.
proof fn lemma_edge_list_grows(tris: Seq<usize>, a: int, b: int, m: int)
    requires
        tris.len() > 0,
        0 <= m <= tris.len() - 1,
    ensures
        count_in(edge_list(tris, a, m), b) == count_in(edge_list(tris.drop_last(), a, m), b)
            + cross(tris.drop_last().take(m), tris.last(), a, b),
    decreases m,
{
    let rest = tris.drop_last();
    let n = tris.len() as int;
    if m > 0 {
        lemma_edge_list_grows(tris, a, b, m - 1);
        lemma_row_prefix(tris, a, m - 1, n - 1);
        lemma_count_add(edge_list(tris, a, m - 1), row_list(tris, a, m - 1, n), b);
        lemma_count_add(edge_list(rest, a, m - 1), row_list(rest, a, m - 1, n - 1), b);
        lemma_count_add(
            row_list(tris, a, m - 1, n - 1),
            linked(tris[m - 1], tris[n - 1], a),
            b,
        );
        lemma_count_linked(tris[m - 1], tris[n - 1], a, b);
        assert(rest.take(m).drop_last() =~= rest.take(m - 1));
        assert(rest.take(m).last() == tris[m - 1]);
    }
}

proof fn lemma_count_edge_list(tris: Seq<usize>, a: int, b: int)
    ensures
        count_in(edge_list(tris, a, tris.len() as int), b) == pairs(tris, a, b),
    decreases tris.len(),
{
    if tris.len() > 0 {
        let rest = tris.drop_last();
        let n = tris.len() as int;
        lemma_count_edge_list(rest, a, b);
        lemma_edge_list_grows(tris, a, b, n - 1);
        assert(rest.take(n - 1) =~= rest);
        assert(row_list(tris, a, n - 1, n) =~= Seq::<usize>::empty());
        assert(edge_list(tris, a, n) =~= edge_list(tris, a, n - 1));
    }
}

proof fn lemma_cross_links<T>(es: Seq<T>, r: int, a: int, b: int, h: int, g: int)
    requires
        0 <= g <= h <= usize::MAX,
        es[r] == es[h],
    ensures
        cross(sharers(es, r, g), (h / 3) as usize, a, b) == slot_links(es, a, b, h, g),
    decreases g,
{
    if g > 0 {
        lemma_cross_links(es, r, a, b, h, g - 1);
        if es[g - 1] == es[r] {
            assert(sharers(es, r, g).drop_last() =~= sharers(es, r, g - 1));
        }
    }
}

/// How often the first `k` edges list `b` for `a`, counting the first `n` slots.
spec fn total<T>(es: Seq<T>, firsts: Seq<int>, a: int, b: int, n: int, k: int) -> int
    decreases k,
{
    if k <= 0 {
        0
    } else {
        total(es, firsts, a, b, n, k - 1) + pairs(sharers(es, firsts[k - 1], n), a, b)
    }
}

proof fn lemma_total_none<T>(es: Seq<T>, firsts: Seq<int>, a: int, b: int, k: int)
    ensures
        total(es, firsts, a, b, 0, k) == 0,
    decreases k,
{
    if k > 0 {
        lemma_total_none(es, firsts, a, b, k - 1);
    }
}

proof fn lemma_total_step<T>(
    es: Seq<T>,
    firsts: Seq<int>,
    a: int,
    b: int,
    n: int,
    k: int,
    at: int,
)
    requires
        names_edges(es, firsts, es.len() as int),
        0 < n <= es.len() <= usize::MAX,
        0 <= at < firsts.len(),
        es[firsts[at]] == es[n - 1],
        0 <= k <= firsts.len(),
    ensures
        total(es, firsts, a, b, n, k) == total(es, firsts, a, b, n - 1, k) + if at < k {
            slot_links(es, a, b, n - 1, n - 1)
        } else {
            0
        },
    decreases k,
{
    if k > 0 {
        lemma_total_step(es, firsts, a, b, n, k - 1, at);
        let r = firsts[k - 1];
        if k - 1 == at {
            lemma_cross_links(es, r, a, b, n - 1, n - 1);
            assert(sharers(es, r, n).drop_last() =~= sharers(es, r, n - 1));
        } else {
            assert(es[r] != es[firsts[at]]) by {
                if k - 1 < at {
                    assert(es[firsts[k - 1]] != es[firsts[at]]);
                } else {
                    assert(es[firsts[at]] != es[firsts[k - 1]]);
                }
            }
        }
    }
}

proof fn lemma_total<T>(es: Seq<T>, firsts: Seq<int>, a: int, b: int, n: int)
    requires
        names_edges(es, firsts, es.len() as int),
        0 <= n <= es.len() <= usize::MAX,
    ensures
        total(es, firsts, a, b, n, firsts.len() as int) == edge_links(es, a, b, n),
    decreases n,
{
    if n == 0 {
        lemma_total_none(es, firsts, a, b, firsts.len() as int);
    } else {
        lemma_total(es, firsts, a, b, n - 1);
        assert(on_edge(es, firsts, es[n - 1]));
        let at = choose|k: int| 0 <= k < firsts.len() && es[#[trigger] firsts[k]] == es[n - 1];
        lemma_total_step(es, firsts, a, b, n, firsts.len() as int, at);
    }
}

proof fn lemma_count_list<T>(es: Seq<T>, firsts: Seq<int>, a: int, b: int, k: int)
    requires
        0 <= k <= firsts.len(),
    ensures
        count_in(neighbor_list(es, firsts, a, k), b) == total(
            es,
            firsts,
            a,
            b,
            es.len() as int,
            k,
        ),
    decreases k,
{
    if k > 0 {
        let tris = sharers(es, firsts[k - 1], es.len() as int);
        lemma_count_list(es, firsts, a, b, k - 1);
        lemma_count_edge_list(tris, a, b);
        lemma_count_add(
            neighbor_list(es, firsts, a, k - 1),
            edge_list(tris, a, tris.len() as int),
            b,
        );
    }
}

/// Listing the neighbours edge by edge lists a triangle once for every edge it shares.
pub(crate) proof fn lemma_listed_counts<T>(es: Seq<T>, adj: Seq<Vec<usize>>, a: int, b: int)
    requires
        is_listed(es, adj),
        es.len() <= usize::MAX,
        0 <= a < adj.len(),
    ensures
        count_in(adj[a]@, b) == edge_links(es, a, b, es.len() as int),
{
    let firsts = choose|firsts: Seq<int>| #[trigger]
        names_edges(es, firsts, es.len() as int) && forall|a: int|
            0 <= a < adj.len() ==> (#[trigger] adj[a])@ == neighbor_list(
                es,
                firsts,
                a,
                firsts.len() as int,
            );
    lemma_count_list(es, firsts, a, b, firsts.len() as int);
    lemma_total(es, firsts, a, b, es.len() as int);
}

/// The neighbours of every triangle, from a number for the edge of each slot.
pub(crate) fn list_neighbors(keys: &Vec<u64>, tri_count: usize) -> (adj: Vec<Vec<usize>>)
    requires
        keys.len() == 3 * tri_count,
    ensures
        adjacency_wf(adj@, tri_count as int),
        is_listed(keys@, adj@),
{
    let (groups, Ghost(firsts)) = group_slots(keys);
    let mut adj: Vec<Vec<usize>> = Vec::new();
    let mut t: usize = 0;
    while t < tri_count
        invariant
            t <= tri_count,
            adj.len() == t,
            forall|k: int| 0 <= k < t ==> (#[trigger] adj@[k])@.len() == 0,
        decreases tri_count - t,
    {
        adj.push(Vec::new());
        t += 1;
    }
    let mut g: usize = 0;
    assert forall|a: int| 0 <= a < adj.len() implies (#[trigger] adj@[a])@ == neighbor_list(
        keys@,
        firsts,
        a,
        0,
    ) by {
        assert(adj@[a]@ =~= Seq::<usize>::empty());
    }
    while g < groups.len()
        invariant
            keys.len() == 3 * tri_count,
            g <= groups.len() == firsts.len(),
            names_edges(keys@, firsts, keys.len() as int),
            forall|k: int|
                0 <= k < groups.len() ==> (#[trigger] groups@[k])@ == sharers(
                    keys@,
                    firsts[k],
                    keys.len() as int,
                ),
            adjacency_wf(adj@, tri_count as int),
            forall|a: int|
                0 <= a < adj.len() ==> (#[trigger] adj@[a])@ == neighbor_list(
                    keys@,
                    firsts,
                    a,
                    g as int,
                ),
        decreases groups.len() - g,
    {
        proof {
            assert forall|k: int| 0 <= k < groups@[g as int]@.len() implies (
            #[trigger] groups@[g as int]@[k]) < tri_count by {
                lemma_sharers_bound(keys@, firsts[g as int], keys.len() as int, k);
            }
        }
        link_sharers(&mut adj, &groups[g]);
        g += 1;
    }
    adj
}

} // verus!
