//! Growing connected charts over the triangle adjacency.

use crate::unwrap::adjacency_wf;
use vstd::prelude::*;

verus! {

/// The answers of `joins` all agree with the relation `j`.
pub open spec fn join_agrees<J: Fn(usize, usize) -> bool>(
    joins: J,
    j: spec_fn(usize, usize) -> bool,
) -> bool {
    forall|seed: usize, t: usize, b: bool| #[trigger]
        joins.ensures((seed, t), b) ==> b == j(seed, t)
}

/// Triangle `u` is listed as a neighbour of triangle `t`.
pub open spec fn lists(adj: Seq<Vec<usize>>, t: usize, u: usize) -> bool {
    adj[t as int]@.contains(u)
}

/// `path` leads from `seed` from neighbour to neighbour, over allowed triangles only.
pub open spec fn chart_path(
    adj: Seq<Vec<usize>>,
    allowed: spec_fn(usize) -> bool,
    seed: usize,
    path: Seq<usize>,
) -> bool {
    &&& path.len() > 0
    &&& path[0] == seed
    &&& forall|i: int| 0 <= i < path.len() ==> (#[trigger] path[i]) < adj.len()
    &&& forall|i: int| 0 < i < path.len() ==> allowed(#[trigger] path[i])
    &&& forall|i: int| 0 < i < path.len() ==> lists(adj, path[i - 1], #[trigger] path[i])
}

/// Triangle `t` can be reached from `seed` over allowed triangles.
pub open spec fn in_reach(
    adj: Seq<Vec<usize>>,
    allowed: spec_fn(usize) -> bool,
    seed: usize,
    t: usize,
) -> bool {
    exists|path: Seq<usize>| #[trigger] chart_path(adj, allowed, seed, path) && path.last() == t
}

proof fn lemma_reach_seed(adj: Seq<Vec<usize>>, allowed: spec_fn(usize) -> bool, seed: usize)
    requires
        seed < adj.len(),
    ensures
        in_reach(adj, allowed, seed, seed),
{
    let path = seq![seed];
    assert(chart_path(adj, allowed, seed, path));
    assert(path.last() == seed);
}

proof fn lemma_reach_step(
    adj: Seq<Vec<usize>>,
    allowed: spec_fn(usize) -> bool,
    seed: usize,
    t: usize,
    u: usize,
)
    requires
        in_reach(adj, allowed, seed, t),
        lists(adj, t, u),
        allowed(u),
        u < adj.len(),
    ensures
        in_reach(adj, allowed, seed, u),
{
    let path = choose|path: Seq<usize>| #[trigger]
        chart_path(adj, allowed, seed, path) && path.last() == t;
    let longer = path.push(u);
    assert(chart_path(adj, allowed, seed, longer)) by {
        assert forall|i: int| 0 <= i < longer.len() implies (#[trigger] longer[i]) < adj.len() by {
            if i < path.len() {
                assert(longer[i] == path[i]);
            }
        }
        assert forall|i: int| 0 < i < longer.len() implies allowed(#[trigger] longer[i]) by {
            if i < path.len() {
                assert(longer[i] == path[i]);
            }
        }
        assert forall|i: int| 0 < i < longer.len() implies lists(
            adj,
            longer[i - 1],
            #[trigger] longer[i],
        ) by {
            if i < path.len() {
                assert(longer[i] == path[i]);
            }
        }
    }
    assert(longer.last() == u);
}

/// Every member but the first is a neighbour of an earlier one.
spec fn grown(adj: Seq<Vec<usize>>, members: Seq<usize>) -> bool {
    forall|k: int| 0 < k < members.len() ==> #[trigger] attached(adj, members, k)
}

spec fn attached(adj: Seq<Vec<usize>>, members: Seq<usize>, k: int) -> bool {
    exists|i: int| 0 <= i < k && lists(adj, #[trigger] members[i], members[k])
}

/// Members grown over allowed triangles can all be reached.
proof fn lemma_grown_reach(
    adj: Seq<Vec<usize>>,
    allowed: spec_fn(usize) -> bool,
    members: Seq<usize>,
    k: int,
)
    requires
        grown(adj, members),
        0 <= k < members.len(),
        forall|i: int| 0 <= i < members.len() ==> (#[trigger] members[i]) < adj.len(),
        forall|i: int| 0 < i < members.len() ==> allowed(#[trigger] members[i]),
    ensures
        in_reach(adj, allowed, members[0], members[k]),
    decreases k,
{
    if k == 0 {
        lemma_reach_seed(adj, allowed, members[0]);
    } else {
        assert(attached(adj, members, k));
        let i = choose|i: int|
            0 <= i < k && lists(adj, #[trigger] members[i], members[k]);
        lemma_grown_reach(adj, allowed, members, i);
        lemma_reach_step(adj, allowed, members[0], members[i], members[k]);
    }
}

/// What may join a chart: triangles that had no chart yet and that the seed accepts.
pub open spec fn free_joins(
    chart_of: Seq<usize>,
    seed: usize,
    j: spec_fn(usize, usize) -> bool,
) -> spec_fn(usize) -> bool {
    |t: usize| chart_of[t as int] == usize::MAX && j(seed, t)
}

proof fn lemma_distinct_bound(s: Seq<usize>, n: int)
    requires
        s.no_duplicates(),
        0 <= n,
        forall|i: int| 0 <= i < s.len() ==> (#[trigger] s[i]) < n,
    ensures
        s.len() <= n,
{
    let ints = s.map_values(|x: usize| x as int);
    assert(ints.no_duplicates()) by {
        assert forall|i: int, j: int|
            0 <= i < ints.len() && 0 <= j < ints.len() && i != j implies ints[i] != ints[j] by {
            assert(s[i] != s[j]);
        }
    }
    ints.unique_seq_to_set();
    let all = vstd::set_lib::set_int_range(0, n);
    vstd::set_lib::lemma_int_range(0, n);
    assert forall|x: int| #[trigger] ints.to_set().contains(x) implies all.contains(x) by {
        let i = choose|i: int| 0 <= i < ints.len() && ints[i] == x;
        assert(s[i] < n);
    }
    assert(ints.to_set().subset_of(all));
    vstd::set_lib::lemma_len_subset(ints.to_set(), all);
}

/// Everything that is taken off the stack has had its neighbours looked at: those that
/// may join have a chart now.
spec fn settled(
    adj: Seq<Vec<usize>>,
    chart_of: Seq<usize>,
    stack: Seq<usize>,
    members: Seq<usize>,
    busy: int,
    j: spec_fn(usize) -> bool,
) -> bool {
    forall|t: usize, u: usize|
        members.contains(t) && !stack.contains(t) && t != busy && #[trigger] lists(adj, t, u) ==> (
        chart_of[u as int] != usize::MAX || !j(u))
}

/// Grows chart `c` from `seed` by flood fill: a triangle without a chart joins when it
/// neighbours a member and `joins(seed, triangle)`. Returns the members in the order they
/// joined.
pub fn grow_chart<J: Fn(usize, usize) -> bool>(
    adj: &Vec<Vec<usize>>,
    chart_of: &mut Vec<usize>,
    seed: usize,
    c: usize,
    joins: &J,
) -> (members: Vec<usize>)
    requires
        adjacency_wf(adj@, adj.len() as int),
        old(chart_of).len() == adj.len(),
        seed < adj.len(),
        old(chart_of)@[seed as int] == usize::MAX,
        c < usize::MAX,
        forall|s: usize, t: usize| #[trigger] joins.requires((s, t)),
    ensures
        final(chart_of).len() == adj.len(),
        members.len() > 0,
        members@[0] == seed,
        members@.no_duplicates(),
        forall|k: int|
            0 <= k < members.len() ==> (#[trigger] members@[k]) < adj.len()
                && old(chart_of)@[members@[k] as int] == usize::MAX,
        forall|t: usize|
            t < adj.len() ==> #[trigger] final(chart_of)@[t as int] == if members@.contains(t) {
                c
            } else {
                old(chart_of)@[t as int]
            },
        forall|k: int|
            0 <= k < members.len() ==> in_reach(
                adj@,
                |t: usize| members@.contains(t),
                seed,
                #[trigger] members@[k],
            ),
        forall|j: spec_fn(usize, usize) -> bool, t: usize|
            #![trigger join_agrees(*joins, j), members@.contains(t)]
            join_agrees(*joins, j) ==> (members@.contains(t) <==> in_reach(
                adj@,
                free_joins(old(chart_of)@, seed, j),
                seed,
                t,
            )),
{
    let ghost before = chart_of@;
    let n: usize = adj.len();
    let mut members: Vec<usize> = Vec::new();
    let mut stack: Vec<usize> = Vec::new();
    chart_of.set(seed, c);
    members.push(seed);
    stack.push(seed);
    proof {
        assert(members@ =~= seq![seed]);
        assert(stack@ =~= seq![seed]);
        assert(members@[0] == seed);
        assert(members@.contains(seed));
    }
    while stack.len() > 0
        invariant
            n == adj.len(),
            adjacency_wf(adj@, n as int),
            before.len() == n,
            chart_of.len() == n,
            seed < n,
            c < usize::MAX,
            forall|s: usize, t: usize| #[trigger] joins.requires((s, t)),
            members_ok(adj@, before, chart_of@, members@, seed, c),
            stack_ok(members@, stack@),
            forall|j: spec_fn(usize, usize) -> bool| #[trigger]
                join_agrees(*joins, j) ==> joined(members@, |t: usize| j(seed, t)) && settled(
                    adj@,
                    chart_of@,
                    stack@,
                    members@,
                    -1,
                    |t: usize| j(seed, t),
                ),
        decreases n - members.len(), stack.len(),
    {
        proof {
            lemma_distinct_bound(members@, n as int);
        }
        let ghost full = stack@;
        let t: usize = stack.pop().unwrap();
        let ghost start = members@.len();
        proof {
            assert(full.last() == t);
            assert(full[full.len() - 1] == t);
            assert(members@.contains(t));
            assert(stack@ =~= full.drop_last());
            assert forall|x: usize| #[trigger] stack@.contains(x) implies full.contains(x) by {
                let i = choose|i: int| 0 <= i < stack@.len() && stack@[i] == x;
                assert(full[i] == x);
            }
            assert forall|x: usize| #[trigger] full.contains(x) && x != t implies stack@.contains(
                x,
            ) by {
                let i = choose|i: int| 0 <= i < full.len() && full[i] == x;
                assert(stack@[i] == x);
            }
        }
        let mut i: usize = 0;
        while i < adj[t].len()
            invariant
                n == adj.len(),
                adjacency_wf(adj@, n as int),
                before.len() == n,
                chart_of.len() == n,
                seed < n,
                t < n,
                c < usize::MAX,
                i <= adj@[t as int].len(),
                forall|s: usize, t: usize| #[trigger] joins.requires((s, t)),
                members_ok(adj@, before, chart_of@, members@, seed, c),
                stack_ok(members@, stack@),
                members@.contains(t),
                start <= members.len() <= n,
                members.len() == start ==> stack.len() < full.len(),
                forall|j: spec_fn(usize, usize) -> bool| #[trigger]
                    join_agrees(*joins, j) ==> joined(members@, |t: usize| j(seed, t)) && settled(
                        adj@,
                        chart_of@,
                        stack@,
                        members@,
                        t as int,
                        |t: usize| j(seed, t),
                    ) && forall|k: int|
                        0 <= k < i ==> chart_of@[(#[trigger] adj@[t as int]@[k]) as int]
                            != usize::MAX || !j(seed, adj@[t as int]@[k]),
            decreases adj@[t as int].len() - i,
        {
            let u: usize = adj[t][i];
            if chart_of[u] == usize::MAX {
                let yes: bool = (*joins)(seed, u);
                if yes {
                    let ghost old_members = members@;
                    let ghost old_stack = stack@;
                    let ghost old_of = chart_of@;
                    chart_of.set(u, c);
                    members.push(u);
                    stack.push(u);
                    proof {
                        assert(!old_members.contains(u));
                        lemma_push_contains(old_members, u, t);
                        lemma_join(adj@, before, old_of, old_members, seed, c, t, u);
                        lemma_stack_push(old_members, old_stack, u);
                        lemma_distinct_bound(members@, n as int);
                        assert forall|j: spec_fn(usize, usize) -> bool| #[trigger]
                            join_agrees(*joins, j) implies joined(
                            members@,
                            |t: usize| j(seed, t),
                        ) && settled(
                            adj@,
                            chart_of@,
                            stack@,
                            members@,
                            t as int,
                            |t: usize| j(seed, t),
                        ) by {
                            assert(j(seed, u));
                            lemma_settled_push(
                                adj@,
                                old_of,
                                old_stack,
                                old_members,
                                t as int,
                                |t: usize| j(seed, t),
                                u,
                                c,
                            );
                        }
                    }
                }
            }
            i += 1;
        }
        proof {
            assert forall|j: spec_fn(usize, usize) -> bool| #[trigger]
                join_agrees(*joins, j) implies settled(
                adj@,
                chart_of@,
                stack@,
                members@,
                -1,
                |t: usize| j(seed, t),
            ) by {
                assert forall|x: usize, u: usize|
                    members@.contains(x) && !stack@.contains(x) && x != -1 && #[trigger] lists(
                        adj@,
                        x,
                        u,
                    ) implies (chart_of@[u as int] != usize::MAX || !j(seed, u)) by {
                    if x == t {
                        let k = choose|k: int|
                            0 <= k < adj@[t as int]@.len() && adj@[t as int]@[k] == u;
                        assert(chart_of@[adj@[t as int]@[k] as int] != usize::MAX || !j(seed, u));
                    }
                }
            }
        }
    }
    proof {
        assert forall|k: int| 0 <= k < members.len() implies in_reach(
            adj@,
            |t: usize| members@.contains(t),
            seed,
            #[trigger] members@[k],
        ) by {
            lemma_grown_reach(adj@, |t: usize| members@.contains(t), members@, k);
        }
        assert forall|j: spec_fn(usize, usize) -> bool, t: usize|
            join_agrees(*joins, j) implies (#[trigger] members@.contains(t) <==> in_reach(
            adj@,
            #[trigger] free_joins(before, seed, j),
            seed,
            t,
        )) by {
            let allowed = free_joins(before, seed, j);
            assert(joined(members@, |t: usize| j(seed, t)));
            if members@.contains(t) {
                let k = choose|k: int| 0 <= k < members@.len() && members@[k] == t;
                lemma_grown_reach(adj@, allowed, members@, k);
            }
            if in_reach(adj@, allowed, seed, t) {
                let path = choose|path: Seq<usize>| #[trigger]
                    chart_path(adj@, allowed, seed, path) && path.last() == t;
                lemma_path_joins(
                    adj@,
                    before,
                    chart_of@,
                    members@,
                    seed,
                    c,
                    j,
                    path,
                    path.len() - 1,
                );
            }
        }
    }
    members
}

/// The members so far: distinct triangles that had no chart, now all in chart `c`.
spec fn members_ok(
    adj: Seq<Vec<usize>>,
    before: Seq<usize>,
    chart_of: Seq<usize>,
    members: Seq<usize>,
    seed: usize,
    c: usize,
) -> bool {
    &&& members.len() > 0
    &&& members[0] == seed
    &&& members.no_duplicates()
    &&& grown(adj, members)
    &&& forall|k: int|
        0 <= k < members.len() ==> (#[trigger] members[k]) < adj.len() && before[members[k] as int]
            == usize::MAX
    &&& forall|t: usize|
        t < adj.len() ==> #[trigger] chart_of[t as int] == if members.contains(t) {
            c
        } else {
            before[t as int]
        }
}

spec fn stack_ok(members: Seq<usize>, stack: Seq<usize>) -> bool {
    &&& stack.no_duplicates()
    &&& forall|k: int| 0 <= k < stack.len() ==> members.contains(#[trigger] stack[k])
}

spec fn joined(members: Seq<usize>, j: spec_fn(usize) -> bool) -> bool {
    forall|k: int| 0 < k < members.len() ==> j(#[trigger] members[k])
}

proof fn lemma_stack_push(members: Seq<usize>, stack: Seq<usize>, u: usize)
    requires
        stack_ok(members, stack),
        !members.contains(u),
    ensures
        stack_ok(members.push(u), stack.push(u)),
{
    let m = members.push(u);
    let s = stack.push(u);
    assert forall|k: int| 0 <= k < s.len() implies m.contains(#[trigger] s[k]) by {
        if k < stack.len() {
            assert(members.contains(stack[k]));
            let i = choose|i: int| 0 <= i < members.len() && members[i] == stack[k];
            assert(m[i] == s[k]);
        } else {
            assert(m[members.len() as int] == u);
        }
    }
    assert forall|a: int, b: int| 0 <= a < s.len() && 0 <= b < s.len() && a != b implies s[a]
        != s[b] by {
        if a < stack.len() {
            assert(members.contains(stack[a]));
        }
        if b < stack.len() {
            assert(members.contains(stack[b]));
        }
    }
}

proof fn lemma_join(
    adj: Seq<Vec<usize>>,
    before: Seq<usize>,
    chart_of: Seq<usize>,
    members: Seq<usize>,
    seed: usize,
    c: usize,
    t: usize,
    u: usize,
)
    requires
        members_ok(adj, before, chart_of, members, seed, c),
        chart_of.len() == adj.len(),
        before.len() == adj.len(),
        members.contains(t),
        !members.contains(u),
        u < adj.len(),
        chart_of[u as int] == usize::MAX,
        lists(adj, t, u),
    ensures
        members_ok(adj, before, chart_of.update(u as int, c), members.push(u), seed, c),
{
    let m = members.push(u);
    let of = chart_of.update(u as int, c);
    assert(m.no_duplicates());
    assert(grown(adj, m)) by {
        assert forall|k: int| 0 < k < m.len() implies #[trigger] attached(adj, m, k) by {
            if k < members.len() {
                assert(attached(adj, members, k));
                let i = choose|i: int|
                    0 <= i < k && lists(adj, #[trigger] members[i], members[k]);
                assert(m[i] == members[i] && m[k] == members[k]);
            } else {
                let i = choose|i: int| 0 <= i < members.len() && members[i] == t;
                assert(m[i] == t && m[k] == u);
            }
        }
    }
    assert forall|x: usize| x < adj.len() implies #[trigger] of[x as int] == if m.contains(x) {
        c
    } else {
        before[x as int]
    } by {
        lemma_push_contains(members, u, x);
        assert(chart_of[x as int] == if members.contains(x) {
            c
        } else {
            before[x as int]
        });
    }
}

proof fn lemma_push_contains(s: Seq<usize>, u: usize, x: usize)
    ensures
        s.push(u).contains(x) <==> s.contains(x) || x == u,
{
    let m = s.push(u);
    if s.contains(x) {
        let i = choose|i: int| 0 <= i < s.len() && s[i] == x;
        assert(m[i] == x);
    }
    assert(m[s.len() as int] == u);
    if m.contains(x) && x != u {
        let i = choose|i: int| 0 <= i < m.len() && m[i] == x;
        assert(s[i] == x);
    }
}

proof fn lemma_settled_push(
    adj: Seq<Vec<usize>>,
    chart_of: Seq<usize>,
    stack: Seq<usize>,
    members: Seq<usize>,
    busy: int,
    j: spec_fn(usize) -> bool,
    u: usize,
    c: usize,
)
    requires
        settled(adj, chart_of, stack, members, busy, j),
        adjacency_wf(adj, chart_of.len() as int),
        forall|k: int| 0 <= k < members.len() ==> (#[trigger] members[k]) < adj.len(),
        u < chart_of.len(),
        c != usize::MAX,
    ensures
        settled(adj, chart_of.update(u as int, c), stack.push(u), members.push(u), busy, j),
{
    let m = members.push(u);
    let s = stack.push(u);
    let of = chart_of.update(u as int, c);
    assert forall|t: usize, v: usize|
        m.contains(t) && !s.contains(t) && t != busy && #[trigger] lists(adj, t, v) implies (
    of[v as int] != usize::MAX || !j(v)) by {
        lemma_push_contains(stack, u, t);
        lemma_push_contains(members, u, t);
        let i = choose|i: int| 0 <= i < members.len() && members[i] == t;
        let k = choose|k: int| 0 <= k < adj[t as int]@.len() && adj[t as int]@[k] == v;
        assert(adj[members[i] as int]@[k] < chart_of.len());
        if v != u {
            assert(chart_of[v as int] != usize::MAX || !j(v));
        }
    }
}

/// Once the stack is empty, everything on a path of allowed triangles has joined.
proof fn lemma_path_joins(
    adj: Seq<Vec<usize>>,
    before: Seq<usize>,
    chart_of: Seq<usize>,
    members: Seq<usize>,
    seed: usize,
    c: usize,
    j: spec_fn(usize, usize) -> bool,
    path: Seq<usize>,
    i: int,
)
    requires
        members_ok(adj, before, chart_of, members, seed, c),
        settled(adj, chart_of, Seq::empty(), members, -1, |t: usize| j(seed, t)),
        chart_path(adj, free_joins(before, seed, j), seed, path),
        0 <= i < path.len(),
        before.len() == adj.len(),
        chart_of.len() == adj.len(),
    ensures
        members.contains(path[i]),
    decreases i,
{
    if i == 0 {
        assert(members[0] == seed);
    } else {
        lemma_path_joins(adj, before, chart_of, members, seed, c, j, path, i - 1);
        let u = path[i];
        assert(u < adj.len());
        assert(lists(adj, path[i - 1], u));
        assert(free_joins(before, seed, j)(u));
        assert(chart_of[u as int] != usize::MAX);
        assert(members.contains(u));
    }
}

/// The charts partition the triangles: chart `c` lists exactly the triangles numbered `c`,
/// each once, and starts with the smallest triangle that no earlier chart holds.
pub open spec fn charts_wf(n: int, chart_of: Seq<usize>, charts: Seq<Vec<usize>>) -> bool {
    &&& chart_of.len() == n
    &&& forall|t: int| 0 <= t < n ==> (#[trigger] chart_of[t]) < charts.len()
    &&& forall|c: int| 0 <= c < charts.len() ==> #[trigger] chart_wf(n, chart_of, charts, c)
}

pub open spec fn chart_wf(n: int, chart_of: Seq<usize>, charts: Seq<Vec<usize>>, c: int) -> bool {
    &&& charts[c]@.len() > 0
    &&& charts[c]@.no_duplicates()
    &&& charts[c]@[0] < n
    &&& forall|t: usize| #[trigger]
        charts[c]@.contains(t) <==> t < n && chart_of[t as int] == c
    &&& forall|t: int| 0 <= t < charts[c]@[0] ==> (#[trigger] chart_of[t]) < c
}

/// What may join chart `c`: the triangles no earlier chart took and that its seed accepts.
pub open spec fn left_for(
    chart_of: Seq<usize>,
    c: int,
    seed: usize,
    j: spec_fn(usize, usize) -> bool,
) -> spec_fn(usize) -> bool {
    |t: usize| chart_of[t as int] >= c && j(seed, t)
}

/// Chart `c` holds what its seed reaches over what was left for it.
pub open spec fn chart_is_grown(
    adj: Seq<Vec<usize>>,
    chart_of: Seq<usize>,
    charts: Seq<Vec<usize>>,
    c: int,
    j: spec_fn(usize, usize) -> bool,
) -> bool {
    forall|t: usize| #[trigger]
        charts[c]@.contains(t) <==> in_reach(
            adj,
            left_for(chart_of, c, charts[c]@[0], j),
            charts[c]@[0],
            t,
        )
}

/// Every triangle is reached from the seed of its chart without leaving the chart.
pub open spec fn charts_connected(
    adj: Seq<Vec<usize>>,
    chart_of: Seq<usize>,
    charts: Seq<Vec<usize>>,
) -> bool {
    forall|t: usize|
        t < adj.len() ==> in_reach(
            adj,
            |u: usize| chart_of[u as int] == chart_of[t as int],
            charts[#[trigger] chart_of[t as int] as int]@[0],
            t,
        )
}

proof fn lemma_reach_weaken(
    adj: Seq<Vec<usize>>,
    a: spec_fn(usize) -> bool,
    b: spec_fn(usize) -> bool,
    seed: usize,
    t: usize,
)
    requires
        in_reach(adj, a, seed, t),
        forall|u: usize| u < adj.len() && #[trigger] a(u) ==> b(u),
    ensures
        in_reach(adj, b, seed, t),
{
    let path = choose|path: Seq<usize>| #[trigger]
        chart_path(adj, a, seed, path) && path.last() == t;
    assert(chart_path(adj, b, seed, path)) by {
        assert forall|i: int| 0 < i < path.len() implies b(#[trigger] path[i]) by {
            assert(a(path[i]));
        }
    }
}

/// Grows charts until every triangle is in one. The next seed is always the smallest
/// triangle without a chart. Returns each triangle's chart and each chart's triangles, in
/// the order they joined.
pub fn grow_charts<J: Fn(usize, usize) -> bool>(adj: &Vec<Vec<usize>>, joins: J) -> (grown: (
    Vec<usize>,
    Vec<Vec<usize>>,
))
    requires
        adjacency_wf(adj@, adj.len() as int),
        adj.len() < usize::MAX,
        forall|s: usize, t: usize| #[trigger] joins.requires((s, t)),
    ensures
        charts_wf(adj.len() as int, grown.0@, grown.1@),
        charts_connected(adj@, grown.0@, grown.1@),
        forall|j: spec_fn(usize, usize) -> bool, c: int|
            #![trigger join_agrees(joins, j), grown.1@[c]]
            join_agrees(joins, j) && 0 <= c < grown.1.len() ==> chart_is_grown(
                adj@,
                grown.0@,
                grown.1@,
                c,
                j,
            ),
{
    let n: usize = adj.len();
    let mut chart_of: Vec<usize> = Vec::new();
    let mut m: usize = 0;
    while m < n
        invariant
            m <= n,
            chart_of.len() == m,
            forall|t: int| 0 <= t < m ==> #[trigger] chart_of@[t] == usize::MAX,
        decreases n - m,
    {
        chart_of.push(usize::MAX);
        m += 1;
    }
    let mut charts: Vec<Vec<usize>> = Vec::new();
    let mut seed: usize = 0;
    while seed < n
        invariant
            n == adj.len() < usize::MAX,
            adjacency_wf(adj@, n as int),
            forall|s: usize, t: usize| #[trigger] joins.requires((s, t)),
            seed <= n,
            charts.len() <= seed,
            partial(adj@, chart_of@, charts@, seed as int),
            forall|j: spec_fn(usize, usize) -> bool, c: int|
                #![trigger join_agrees(joins, j), charts@[c]]
                join_agrees(joins, j) && 0 <= c < charts.len() ==> chart_is_grown(
                    adj@,
                    chart_of@,
                    charts@,
                    c,
                    j,
                ),
        decreases n - seed,
    {
        if chart_of[seed] == usize::MAX {
            let c: usize = charts.len();
            let ghost before = chart_of@;
            let ghost old_charts = charts@;
            let members = grow_chart(adj, &mut chart_of, seed, c, &joins);
            let ghost list = members@;
            charts.push(members);
            proof {
                assert forall|t: usize| t < n implies {
                    ||| chart_of@[t as int] == before[t as int]
                    ||| chart_of@[t as int] == c && before[t as int] == usize::MAX
                } by {
                    if list.contains(t) {
                        let k = choose|k: int| 0 <= k < list.len() && list[k] == t;
                        assert(before[list[k] as int] == usize::MAX);
                    }
                    assert(chart_of@[t as int] == if list.contains(t) {
                        c
                    } else {
                        before[t as int]
                    });
                }
                assert(charts@.drop_last() =~= old_charts);
                lemma_add_chart(adj@, before, chart_of@, old_charts, charts@, seed);
                assert forall|j: spec_fn(usize, usize) -> bool, d: int|
                    #![trigger join_agrees(joins, j), charts@[d]]
                    join_agrees(joins, j) && 0 <= d < charts.len() implies chart_is_grown(
                    adj@,
                    chart_of@,
                    charts@,
                    d,
                    j,
                ) by {
                    if d < c {
                        assert(charts@[d] == old_charts[d]);
                        assert(chart_is_grown(adj@, before, old_charts, d, j));
                        lemma_still_grown(adj@, before, chart_of@, old_charts, charts@, d, j);
                    } else {
                        let s0 = free_joins(before, seed, j);
                        let s1 = left_for(chart_of@, c as int, seed, j);
                        assert forall|t: usize| #[trigger] charts@[d]@.contains(t) <==> in_reach(
                            adj@,
                            s1,
                            seed,
                            t,
                        ) by {
                            assert(list.contains(t) <==> in_reach(adj@, s0, seed, t));
                            assert forall|u: usize| u < adj@.len() implies (#[trigger] s0(u)
                                <==> s1(u)) by {
                                assert(before[u as int] == usize::MAX <==> chart_of@[u as int]
                                    >= c) by {
                                    if before[u as int] != usize::MAX {
                                        assert(before[u as int] < c);
                                    }
                                }
                            }
                            if in_reach(adj@, s0, seed, t) {
                                lemma_reach_weaken(adj@, s0, s1, seed, t);
                            }
                            if in_reach(adj@, s1, seed, t) {
                                lemma_reach_weaken(adj@, s1, s0, seed, t);
                            }
                        }
                    }
                }
            }
        }
        seed += 1;
    }
    proof {
        assert forall|t: int| 0 <= t < n implies (#[trigger] chart_of@[t]) < charts.len() by {
            assert(chart_of@[t] != usize::MAX);
        }
        assert forall|t: usize| t < adj@.len() implies in_reach(
            adj@,
            |u: usize| chart_of@[u as int] == chart_of@[t as int],
            charts@[#[trigger] chart_of@[t as int] as int]@[0],
            t,
        ) by {
            assert(chart_of@[t as int] != usize::MAX);
        }
    }
    (chart_of, charts)
}

/// The charts grown so far, with every triangle before `seed` in one of them.
spec fn partial(
    adj: Seq<Vec<usize>>,
    chart_of: Seq<usize>,
    charts: Seq<Vec<usize>>,
    seed: int,
) -> bool {
    &&& chart_of.len() == adj.len()
    &&& charts.len() <= usize::MAX
    &&& forall|t: int| 0 <= t < seed ==> #[trigger] chart_of[t] != usize::MAX
    &&& forall|t: int|
        0 <= t < chart_of.len() ==> (#[trigger] chart_of[t]) < charts.len() || chart_of[t]
            == usize::MAX
    &&& forall|c: int|
        0 <= c < charts.len() ==> #[trigger] chart_wf(adj.len() as int, chart_of, charts, c)
    &&& forall|t: usize|
        t < adj.len() && chart_of[t as int] != usize::MAX ==> in_reach(
            adj,
            |u: usize| chart_of[u as int] == chart_of[t as int],
            charts[#[trigger] chart_of[t as int] as int]@[0],
            t,
        )
}

/// Adding a chart keeps what holds of the charts before it.
proof fn lemma_add_chart(
    adj: Seq<Vec<usize>>,
    before: Seq<usize>,
    chart_of: Seq<usize>,
    old_charts: Seq<Vec<usize>>,
    charts: Seq<Vec<usize>>,
    seed: usize,
)
    requires
        partial(adj, before, old_charts, seed as int),
        seed < adj.len(),
        adj.len() < usize::MAX,
        before[seed as int] == usize::MAX,
        chart_of.len() == adj.len(),
        old_charts.len() < usize::MAX,
        charts.len() == old_charts.len() + 1,
        charts.drop_last() == old_charts,
        charts.last()@.len() > 0,
        charts.last()@[0] == seed,
        charts.last()@.no_duplicates(),
        forall|k: int|
            0 <= k < charts.last()@.len() ==> (#[trigger] charts.last()@[k]) < adj.len(),
        forall|t: usize|
            t < adj.len() ==> #[trigger] chart_of[t as int] == if charts.last()@.contains(t) {
                old_charts.len() as usize
            } else {
                before[t as int]
            },
        forall|t: usize|
            t < adj.len() && charts.last()@.contains(t) ==> #[trigger] before[t as int]
                == usize::MAX,
        forall|k: int|
            0 <= k < charts.last()@.len() ==> in_reach(
                adj,
                |t: usize| charts.last()@.contains(t),
                seed,
                #[trigger] charts.last()@[k],
            ),
    ensures
        partial(adj, chart_of, charts, seed + 1),
{
    let c = old_charts.len() as int;
    let list = charts.last()@;
    assert(list.contains(seed)) by {
        assert(list[0] == seed);
    }
    assert forall|t: int| 0 <= t < chart_of.len() implies (#[trigger] chart_of[t]) < charts.len()
        || chart_of[t] == usize::MAX by {
        let u = t as usize;
        assert(chart_of[u as int] == if list.contains(u) {
            c as usize
        } else {
            before[u as int]
        });
        assert(before[t] < old_charts.len() || before[t] == usize::MAX);
    }
    assert forall|t: int| 0 <= t < seed + 1 implies #[trigger] chart_of[t] != usize::MAX by {
        let u = t as usize;
        assert(chart_of[u as int] == if list.contains(u) {
            c as usize
        } else {
            before[u as int]
        });
        if t < seed {
            assert(before[t] != usize::MAX);
        }
    }
    assert forall|d: int| 0 <= d < charts.len() implies #[trigger] chart_wf(
        adj.len() as int,
        chart_of,
        charts,
        d,
    ) by {
        if d < c {
            assert(chart_wf(adj.len() as int, before, old_charts, d));
            assert(charts[d] == old_charts[d]);
            assert forall|t: usize| #[trigger] charts[d]@.contains(t) <==> t < adj.len()
                && chart_of[t as int] == d by {
                if t < adj.len() {
                    assert(old_charts[d]@.contains(t) <==> before[t as int] == d);
                    assert(chart_of[t as int] == if list.contains(t) {
                        c as usize
                    } else {
                        before[t as int]
                    });
                    if list.contains(t) {
                        assert(before[t as int] == usize::MAX);
                    }
                }
            }
            assert forall|t: int| 0 <= t < charts[d]@[0] implies (#[trigger] chart_of[t]) < d by {
                let u = t as usize;
                assert(before[t] < d);
                assert(chart_of[u as int] == if list.contains(u) {
                    c as usize
                } else {
                    before[u as int]
                });
                if list.contains(u) {
                    assert(before[u as int] == usize::MAX);
                }
            }
        } else {
            assert(charts[d]@ == list);
            assert forall|t: usize| #[trigger] charts[d]@.contains(t) <==> t < adj.len()
                && chart_of[t as int] == d by {
                if list.contains(t) {
                    let k = choose|k: int| 0 <= k < list.len() && list[k] == t;
                    assert(list[k] < adj.len());
                }
                if t < adj.len() {
                    assert(chart_of[t as int] == if list.contains(t) {
                        c as usize
                    } else {
                        before[t as int]
                    });
                    assert(before[t as int] < old_charts.len() || before[t as int] == usize::MAX);
                }
            }
            assert forall|t: int| 0 <= t < charts[d]@[0] implies (#[trigger] chart_of[t]) < d by {
                let u = t as usize;
                assert(before[t] != usize::MAX);
                assert(before[t] < old_charts.len());
                assert(chart_of[u as int] == if list.contains(u) {
                    c as usize
                } else {
                    before[u as int]
                });
                if list.contains(u) {
                    assert(before[u as int] == usize::MAX);
                }
            }
        }
    }
    assert forall|t: usize| t < adj.len() && chart_of[t as int] != usize::MAX implies in_reach(
        adj,
        |u: usize| chart_of[u as int] == chart_of[t as int],
        charts[#[trigger] chart_of[t as int] as int]@[0],
        t,
    ) by {
        let same = |u: usize| chart_of[u as int] == chart_of[t as int];
        if list.contains(t) {
            let k = choose|k: int| 0 <= k < list.len() && list[k] == t;
            assert(chart_of[t as int] == c);
            let a = |u: usize| charts.last()@.contains(u);
            assert(in_reach(adj, a, seed, list[k]));
            assert forall|u: usize| u < adj.len() && #[trigger] a(u) implies same(u) by {
                assert(chart_of[u as int] == c);
            }
            lemma_reach_weaken(adj, a, same, seed, t);
        } else {
            assert(chart_of[t as int] == before[t as int]);
            let a = |u: usize| before[u as int] == before[t as int];
            let d = before[t as int] as int;
            assert(charts[d] == old_charts[d]);
            assert(in_reach(adj, a, old_charts[d]@[0], t));
            assert forall|u: usize| u < adj.len() && #[trigger] a(u) implies same(u) by {
                assert(chart_of[u as int] == if list.contains(u) {
                    c as usize
                } else {
                    before[u as int]
                });
                if list.contains(u) {
                    assert(before[u as int] == usize::MAX);
                }
            }
            lemma_reach_weaken(adj, a, same, old_charts[d]@[0], t);
        }
    }
}

/// A finished chart stays what its seed reaches when later charts are added.
proof fn lemma_still_grown(
    adj: Seq<Vec<usize>>,
    before: Seq<usize>,
    chart_of: Seq<usize>,
    old_charts: Seq<Vec<usize>>,
    charts: Seq<Vec<usize>>,
    d: int,
    j: spec_fn(usize, usize) -> bool,
)
    requires
        chart_is_grown(adj, before, old_charts, d, j),
        0 <= d < old_charts.len() <= charts.len() <= usize::MAX,
        charts[d] == old_charts[d],
        before.len() == adj.len(),
        forall|t: usize|
            t < adj.len() ==> (#[trigger] chart_of[t as int] == before[t as int] || (
            chart_of[t as int] == old_charts.len() && before[t as int] == usize::MAX)),
    ensures
        chart_is_grown(adj, chart_of, charts, d, j),
{
    let seed = charts[d]@[0];
    let s0 = left_for(before, d, seed, j);
    let s1 = left_for(chart_of, d, seed, j);
    assert forall|t: usize| #[trigger] charts[d]@.contains(t) <==> in_reach(adj, s1, seed, t) by {
        assert(old_charts[d]@.contains(t) <==> in_reach(adj, s0, seed, t));
        assert forall|u: usize| u < adj.len() implies (#[trigger] s0(u) <==> s1(u)) by {
            assert(chart_of[u as int] == before[u as int] || (chart_of[u as int]
                == old_charts.len() && before[u as int] == usize::MAX));
        }
        if in_reach(adj, s0, seed, t) {
            lemma_reach_weaken(adj, s0, s1, seed, t);
        }
        if in_reach(adj, s1, seed, t) {
            lemma_reach_weaken(adj, s1, s0, seed, t);
        }
    }
}

/// Two parts of the mesh that no neighbour link joins never share a chart, whatever their
/// normals.
pub proof fn law_separate_parts_get_separate_charts(
    adj: Seq<Vec<usize>>,
    chart_of: Seq<usize>,
    charts: Seq<Vec<usize>>,
    part: spec_fn(usize) -> bool,
    a: usize,
    b: usize,
)
    requires
        charts_connected(adj, chart_of, charts),
        forall|t: usize, u: usize|
            t < adj.len() && u < adj.len() && #[trigger] lists(adj, t, u) ==> part(t) == part(u),
        a < adj.len(),
        b < adj.len(),
        part(a),
        !part(b),
    ensures
        chart_of[a as int] != chart_of[b as int],
{
    if chart_of[a as int] == chart_of[b as int] {
        let seed = charts[chart_of[a as int] as int]@[0];
        let same_a = |u: usize| chart_of[u as int] == chart_of[a as int];
        let same_b = |u: usize| chart_of[u as int] == chart_of[b as int];
        let pa = choose|path: Seq<usize>| #[trigger]
            chart_path(adj, same_a, seed, path) && path.last() == a;
        let pb = choose|path: Seq<usize>| #[trigger]
            chart_path(adj, same_b, seed, path) && path.last() == b;
        lemma_path_in_part(adj, same_a, part, seed, pa, pa.len() - 1);
        lemma_path_in_part(adj, same_b, part, seed, pb, pb.len() - 1);
    }
}

proof fn lemma_path_in_part(
    adj: Seq<Vec<usize>>,
    allowed: spec_fn(usize) -> bool,
    part: spec_fn(usize) -> bool,
    seed: usize,
    path: Seq<usize>,
    i: int,
)
    requires
        chart_path(adj, allowed, seed, path),
        0 <= i < path.len(),
        forall|t: usize, u: usize|
            t < adj.len() && u < adj.len() && #[trigger] lists(adj, t, u) ==> part(t) == part(u),
    ensures
        part(path[i]) == part(seed),
    decreases i,
{
    if i > 0 {
        lemma_path_in_part(adj, allowed, part, seed, path, i - 1);
        assert(path[i - 1] < adj.len() && path[i] < adj.len());
        assert(lists(adj, path[i - 1], path[i]));
    }
}

} // verus!
