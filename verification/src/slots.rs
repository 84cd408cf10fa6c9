//! Sharing one atlas slot between congruent charts.

use vstd::prelude::*;

verus! {

/// Charts with more distinct vertices than this are not matched: comparing all their
/// distances would cost too much, and a chart that large hardly ever has a twin.
pub const MAX_MATCH_VERTS: usize = 256;

/// Sorts integers with the standard library's `sort_unstable`, which orders a slice
/// ascending and keeps its elements.
#[verifier::external_body]
fn sort_ascending(v: &mut Vec<i64>)
    ensures
        final(v)@.to_multiset() == old(v)@.to_multiset(),
        forall|i: int, j: int| 0 <= i < j < final(v).len() ==> final(v)@[i] <= final(v)@[j],
{
    v.sort_unstable();
}

/// The key that congruent charts share: the number of vertices, then all distances
/// between them in ascending order.
pub fn dist_key(verts: usize, dists: Vec<i64>) -> (key: Vec<i64>)
    requires
        verts <= i64::MAX,
    ensures
        key.len() > 0,
        key@[0] == verts,
        key@.skip(1).to_multiset() == dists@.to_multiset(),
        forall|i: int, j: int| 1 <= i < j < key.len() ==> key@[i] <= key@[j],
{
    let mut sorted = dists;
    sort_ascending(&mut sorted);
    let mut key: Vec<i64> = Vec::new();
    key.push(verts as i64);
    let mut i: usize = 0;
    while i < sorted.len()
        invariant
            i <= sorted.len(),
            key.len() == i + 1,
            key@[0] == verts,
            forall|k: int| 0 <= k < i ==> key@[k + 1] == #[trigger] sorted@[k],
        decreases sorted.len() - i,
    {
        key.push(sorted[i]);
        i += 1;
    }
    proof {
        assert(key@.skip(1) =~= sorted@);
        assert forall|i: int, j: int| 1 <= i < j < key.len() implies key@[i] <= key@[j] by {
            assert(sorted@[i - 1] <= sorted@[j - 1]);
        }
    }
    key
}

fn same_key(a: &Vec<i64>, b: &Vec<i64>) -> (same: bool)
    ensures
        same == (a@ == b@),
{
    if a.len() != b.len() {
        return false;
    }
    let mut i: usize = 0;
    while i < a.len()
        invariant
            i <= a.len() == b.len(),
            forall|k: int| 0 <= k < i ==> #[trigger] a@[k] == b@[k],
        decreases a.len() - i,
    {
        if a[i] != b[i] {
            return false;
        }
        i += 1;
    }
    assert(a@ =~= b@);
    true
}

/// The answers of `register` all agree with the function `f`.
pub open spec fn register_agrees<R, G: Fn(usize, usize) -> Option<R>>(
    register: G,
    f: spec_fn(usize, usize) -> Option<R>,
) -> bool {
    forall|r: usize, c: usize, v: Option<R>| #[trigger]
        register.ensures((r, c), v) ==> v == f(r, c)
}

/// How the charts were grouped: each chart's slot, each slot's first chart, and for a
/// chart laid over an earlier one, that chart and the map onto it.
pub struct Grouping<R> {
    pub slot_of: Vec<usize>,
    pub slot_reps: Vec<usize>,
    pub placed: Vec<Option<(usize, R)>>,
}

/// Chart `r` opened a slot that later charts may be laid into.
pub open spec fn is_rep<R>(verts: Seq<usize>, placed: Seq<Option<(usize, R)>>, r: int) -> bool {
    verts[r] <= MAX_MATCH_VERTS && placed[r] is None
}

/// Chart `c` is compared with the earlier chart `r`.
pub open spec fn compared<R>(
    verts: Seq<usize>,
    keys: Seq<Vec<i64>>,
    placed: Seq<Option<(usize, R)>>,
    r: int,
    c: int,
) -> bool {
    &&& 0 <= r < c
    &&& is_rep(verts, placed, r)
    &&& keys[r]@ == keys[c]@
}

/// How many of the first `n` charts opened a slot.
pub open spec fn opened<R>(placed: Seq<Option<(usize, R)>>, n: int) -> int
    decreases n,
{
    if n <= 0 {
        0
    } else {
        opened(placed, n - 1) + if placed[n - 1] is None {
            1int
        } else {
            0
        }
    }
}

/// Chart `c` sits where it belongs: in the slot of the first earlier chart with its key
/// that it registers with, or, with none, in the next new slot.
pub open spec fn chart_slotted<R>(
    verts: Seq<usize>,
    keys: Seq<Vec<i64>>,
    f: spec_fn(usize, usize) -> Option<R>,
    slot_of: Seq<usize>,
    slot_reps: Seq<usize>,
    placed: Seq<Option<(usize, R)>>,
    c: int,
) -> bool {
    match placed[c] {
        Some((r, v)) => {
            &&& verts[c] <= MAX_MATCH_VERTS
            &&& compared(verts, keys, placed, r as int, c)
            &&& f(r, c as usize) == Some(v)
            &&& forall|q: int|
                0 <= q < r && #[trigger] compared(verts, keys, placed, q, c) ==> f(
                    q as usize,
                    c as usize,
                ) is None
            &&& slot_of[c] == slot_of[r as int]
        },
        None => {
            &&& verts[c] <= MAX_MATCH_VERTS ==> forall|q: int|
                #[trigger] compared(verts, keys, placed, q, c) ==> f(q as usize, c as usize) is None
            &&& slot_of[c] == opened(placed, c)
            &&& slot_reps[slot_of[c] as int] == c
        },
    }
}

/// Sizes and slots of a grouping of `n` charts fit together.
pub open spec fn slots_ok<R>(
    slot_of: Seq<usize>,
    slot_reps: Seq<usize>,
    placed: Seq<Option<(usize, R)>>,
    n: int,
) -> bool {
    &&& slot_of.len() == n
    &&& placed.len() == n
    &&& slot_reps.len() == opened(placed, n)
    &&& forall|c: int| 0 <= c < n ==> (#[trigger] slot_of[c]) < slot_reps.len()
    &&& forall|c: int|
        0 <= c < n ==> match #[trigger] placed[c] {
            Some((r, v)) => r < c && placed[r as int] is None && slot_of[c] == slot_of[r as int],
            None => slot_of[c] == opened(placed, c) && slot_reps[slot_of[c] as int] == c,
        }
}

pub open spec fn grouping_wf<R>(n: int, g: Grouping<R>) -> bool {
    slots_ok(g.slot_of@, g.slot_reps@, g.placed@, n)
}

/// The charts that opened a slot and may take others in, ascending.
spec fn reps_ok<R>(
    verts: Seq<usize>,
    placed: Seq<Option<(usize, R)>>,
    reps: Seq<usize>,
    c: int,
) -> bool {
    &&& forall|i: int|
        0 <= i < reps.len() ==> (#[trigger] reps[i]) < c && is_rep(verts, placed, reps[i] as int)
    &&& forall|i: int, k: int| 0 <= i < k < reps.len() ==> reps[i] < reps[k]
    &&& forall|r: usize|
        r < c && #[trigger] is_rep(verts, placed, r as int) ==> reps.contains(r)
}

/// Each of the first `n` charts sits where it belongs.
spec fn all_slotted<R>(
    verts: Seq<usize>,
    keys: Seq<Vec<i64>>,
    f: spec_fn(usize, usize) -> Option<R>,
    slot_of: Seq<usize>,
    slot_reps: Seq<usize>,
    placed: Seq<Option<(usize, R)>>,
    n: int,
) -> bool {
    forall|k: int|
        0 <= k < n ==> #[trigger] chart_slotted(verts, keys, f, slot_of, slot_reps, placed, k)
}

/// The effect of slotting chart `c`, with or without a hit.
spec fn slot_step<R>(
    old_of: Seq<usize>,
    slot_of: Seq<usize>,
    old_slots: Seq<usize>,
    slot_reps: Seq<usize>,
    old_placed: Seq<Option<(usize, R)>>,
    placed: Seq<Option<(usize, R)>>,
    c: usize,
    hit: Option<(usize, R)>,
) -> bool {
    &&& placed == old_placed.push(hit)
    &&& match hit {
        Some(h) => slot_of == old_of.push(old_of[h.0 as int]) && slot_reps == old_slots,
        None => slot_of == old_of.push(old_slots.len() as usize) && slot_reps == old_slots.push(c),
    }
}

proof fn lemma_wf_step<R>(
    verts: Seq<usize>,
    old_of: Seq<usize>,
    slot_of: Seq<usize>,
    old_slots: Seq<usize>,
    slot_reps: Seq<usize>,
    old_placed: Seq<Option<(usize, R)>>,
    placed: Seq<Option<(usize, R)>>,
    old_reps: Seq<usize>,
    reps: Seq<usize>,
    c: usize,
    hit: Option<(usize, R)>,
)
    requires
        slots_ok(old_of, old_slots, old_placed, c as int),
        reps_ok(verts, old_placed, old_reps, c as int),
        slot_step(old_of, slot_of, old_slots, slot_reps, old_placed, placed, c, hit),
        hit matches Some(h) ==> h.0 < c && old_placed[h.0 as int] is None,
        reps == if hit is None && verts[c as int] <= MAX_MATCH_VERTS {
            old_reps.push(c)
        } else {
            old_reps
        },
    ensures
        slots_ok(slot_of, slot_reps, placed, c + 1),
        reps_ok(verts, placed, reps, c + 1),
{
    lemma_opened_push(old_placed, placed, c as int);
    assert forall|k: int| 0 <= k < c + 1 implies (#[trigger] slot_of[k]) < slot_reps.len() by {
        if k < c {
            assert(old_of[k] < old_slots.len());
        } else if hit is Some {
            assert(old_of[(hit->0).0 as int] < old_slots.len());
        }
    }
    assert forall|k: int| 0 <= k < c + 1 implies match #[trigger] placed[k] {
        Some((r, v)) => r < k && placed[r as int] is None && slot_of[k] == slot_of[r as int],
        None => slot_of[k] == opened(placed, k) && slot_reps[slot_of[k] as int] == k,
    } by {
        if k < c {
            assert(placed[k] == old_placed[k]);
            lemma_opened_push(old_placed, placed, k);
            assert(old_of[k] < old_slots.len());
        }
    }
    assert forall|r: usize| r < c + 1 && #[trigger] is_rep(
        verts,
        placed,
        r as int,
    ) implies reps.contains(r) by {
        if r < c {
            assert(is_rep(verts, old_placed, r as int));
            assert(old_reps.contains(r));
            let i = choose|i: int| 0 <= i < old_reps.len() && old_reps[i] == r;
            assert(reps[i] == r);
        } else {
            assert(reps[reps.len() - 1] == c);
        }
    }
    assert forall|i: int| 0 <= i < reps.len() implies (#[trigger] reps[i]) < c + 1 && is_rep(
        verts,
        placed,
        reps[i] as int,
    ) by {
        if i < old_reps.len() {
            assert(is_rep(verts, old_placed, old_reps[i] as int));
        }
    }
}

proof fn lemma_slotted_step<R>(
    verts: Seq<usize>,
    keys: Seq<Vec<i64>>,
    f: spec_fn(usize, usize) -> Option<R>,
    old_of: Seq<usize>,
    slot_of: Seq<usize>,
    old_slots: Seq<usize>,
    slot_reps: Seq<usize>,
    old_placed: Seq<Option<(usize, R)>>,
    placed: Seq<Option<(usize, R)>>,
    reps: Seq<usize>,
    c: usize,
    hit: Option<(usize, R)>,
)
    requires
        slots_ok(old_of, old_slots, old_placed, c as int),
        reps_ok(verts, old_placed, reps, c as int),
        slot_step(old_of, slot_of, old_slots, slot_reps, old_placed, placed, c, hit),
        slots_ok(slot_of, slot_reps, placed, c + 1),
        all_slotted(verts, keys, f, old_of, old_slots, old_placed, c as int),
        hit matches Some(h) ==> verts[c as int] <= MAX_MATCH_VERTS && compared(
            verts,
            keys,
            old_placed,
            h.0 as int,
            c as int,
        ) && f(h.0, c) == Some(h.1),
        verts[c as int] <= MAX_MATCH_VERTS ==> forall|i: int|
            0 <= i < reps.len() && keys[(#[trigger] reps[i]) as int]@ == keys[c as int]@ && (
            hit matches Some(h) ==> reps[i] < h.0) ==> f(reps[i], c) is None,
    ensures
        all_slotted(verts, keys, f, slot_of, slot_reps, placed, c + 1),
{
    assert forall|k: int| 0 <= k < c + 1 implies #[trigger] chart_slotted(
        verts,
        keys,
        f,
        slot_of,
        slot_reps,
        placed,
        k,
    ) by {
        if k < c {
            assert(old_placed[k] == placed[k]);
            assert(chart_slotted(verts, keys, f, old_of, old_slots, old_placed, k));
            assert forall|q: int| #[trigger] compared(verts, keys, placed, q, k) <==> compared(
                verts,
                keys,
                old_placed,
                q,
                k,
            ) by {}
            lemma_opened_push(old_placed, placed, k);
            assert(old_of[k] < old_slots.len());
        } else {
            assert(placed[k] == hit);
            assert forall|q: int| #[trigger]
                compared(verts, keys, placed, q, k) && verts[k] <= MAX_MATCH_VERTS && (
                hit matches Some(h) ==> q < h.0) implies f(q as usize, c) is None by {
                assert(is_rep(verts, old_placed, q as usize as int));
                assert(reps.contains(q as usize));
                let i = choose|i: int| 0 <= i < reps.len() && reps[i] == q as usize;
                assert(keys[reps[i] as int]@ == keys[c as int]@);
            }
        }
    }
}

proof fn lemma_opened_push<R>(
    placed: Seq<Option<(usize, R)>>,
    more: Seq<Option<(usize, R)>>,
    n: int,
)
    requires
        0 <= n <= placed.len() <= more.len(),
        forall|k: int| 0 <= k < placed.len() ==> #[trigger] more[k] == placed[k],
    ensures
        opened(more, n) == opened(placed, n),
        0 <= opened(placed, n) <= n,
    decreases n,
{
    if n > 0 {
        lemma_opened_push(placed, more, n - 1);
        assert(more[n - 1] == placed[n - 1]);
    }
}

/// The first of `reps` with the key of chart `c` that `register` maps it onto.
fn first_match<R, G: Fn(usize, usize) -> Option<R>>(
    keys: &Vec<Vec<i64>>,
    reps: &Vec<usize>,
    c: usize,
    register: &G,
) -> (hit: Option<(usize, R)>)
    requires
        c < keys.len(),
        forall|i: int| 0 <= i < reps.len() ==> (#[trigger] reps@[i]) < keys.len(),
        forall|i: int, k: int| 0 <= i < k < reps.len() ==> reps@[i] < reps@[k],
        forall|r: usize, c: usize| #[trigger] register.requires((r, c)),
    ensures
        hit matches Some(h) ==> reps@.contains(h.0) && keys@[h.0 as int]@ == keys@[c as int]@,
        forall|f: spec_fn(usize, usize) -> Option<R>| #[trigger]
            register_agrees(*register, f) ==> first_hit(keys@, reps@, c, f, hit),
{
    let mut k: usize = 0;
    while k < reps.len()
        invariant
            c < keys.len(),
            k <= reps.len(),
            forall|i: int| 0 <= i < reps.len() ==> (#[trigger] reps@[i]) < keys.len(),
            forall|i: int, k: int| 0 <= i < k < reps.len() ==> reps@[i] < reps@[k],
            forall|r: usize, c: usize| #[trigger] register.requires((r, c)),
            forall|f: spec_fn(usize, usize) -> Option<R>| #[trigger]
                register_agrees(*register, f) ==> first_hit(keys@, reps@.take(k as int), c, f, None),
        decreases reps.len() - k,
    {
        let rep: usize = reps[k];
        if same_key(&keys[rep], &keys[c]) {
            match (*register)(rep, c) {
                Some(v) => {
                    let hit = Some((rep, v));
                    proof {
                        assert(reps@[k as int] == rep);
                        assert forall|f: spec_fn(usize, usize) -> Option<R>| #[trigger]
                            register_agrees(*register, f) implies first_hit(
                            keys@,
                            reps@,
                            c,
                            f,
                            hit,
                        ) by {
                            assert(first_hit(keys@, reps@.take(k as int), c, f, None::<(usize, R)>));
                            assert forall|i: int|
                                0 <= i < reps.len() && keys@[(#[trigger] reps@[i]) as int]@
                                    == keys@[c as int]@ && reps@[i] < rep implies f(
                                reps@[i],
                                c,
                            ) is None by {
                                if i < k {
                                    assert(reps@.take(k as int)[i] == reps@[i]);
                                }
                            }
                        }
                    }
                    return hit;
                },
                None => {},
            }
        }
        proof {
            assert forall|f: spec_fn(usize, usize) -> Option<R>| #[trigger]
                register_agrees(*register, f) implies first_hit(
                keys@,
                reps@.take(k + 1),
                c,
                f,
                None,
            ) by {
                let t = reps@.take(k + 1);
                assert(first_hit(keys@, reps@.take(k as int), c, f, None::<(usize, R)>));
                assert forall|i: int|
                    0 <= i < t.len() && keys@[(#[trigger] t[i]) as int]@
                        == keys@[c as int]@ implies f(t[i], c) is None by {
                    if i < k {
                        assert(reps@.take(k as int)[i] == t[i]);
                    }
                }
            }
        }
        k += 1;
    }
    assert(reps@.take(k as int) =~= reps@);
    None
}

/// `hit` is the first of `reps` with the key of chart `c` onto which `f` maps it.
spec fn first_hit<R>(
    keys: Seq<Vec<i64>>,
    reps: Seq<usize>,
    c: usize,
    f: spec_fn(usize, usize) -> Option<R>,
    hit: Option<(usize, R)>,
) -> bool {
    &&& hit matches Some(h) ==> f(h.0, c) == Some(h.1)
    &&& forall|i: int|
        0 <= i < reps.len() && keys[(#[trigger] reps[i]) as int]@ == keys[c as int]@ && (
        hit matches Some(h) ==> reps[i] < h.0) ==> f(reps[i], c) is None
}

/// Groups charts into slots. Without `overlap` every chart gets its own. With it, a chart
/// is compared, in order, with the earlier charts that opened a slot and have its key;
/// the first one `register` maps it onto takes it in.
pub fn group_congruent_charts<R, G: Fn(usize, usize) -> Option<R>>(
    verts: &Vec<usize>,
    keys: &Vec<Vec<i64>>,
    register: G,
    overlap: bool,
) -> (g: Grouping<R>)
    requires
        verts.len() == keys.len(),
        forall|r: usize, c: usize| #[trigger] register.requires((r, c)),
    ensures
        grouping_wf(verts.len() as int, g),
        !overlap ==> forall|c: int|
            0 <= c < verts.len() ==> #[trigger] g.placed@[c] is None && g.slot_of@[c] == c,
        overlap ==> forall|f: spec_fn(usize, usize) -> Option<R>, c: int|
            #![trigger register_agrees(register, f), g.placed@[c]]
            register_agrees(register, f) && 0 <= c < verts.len() ==> chart_slotted(
                verts@,
                keys@,
                f,
                g.slot_of@,
                g.slot_reps@,
                g.placed@,
                c,
            ),
{
    let n: usize = verts.len();
    let mut slot_of: Vec<usize> = Vec::new();
    let mut slot_reps: Vec<usize> = Vec::new();
    let mut placed: Vec<Option<(usize, R)>> = Vec::new();
    let mut reps: Vec<usize> = Vec::new();
    let mut c: usize = 0;
    while c < n
        invariant
            c <= n == verts.len() == keys.len(),
            forall|r: usize, c: usize| #[trigger] register.requires((r, c)),
            slots_ok(slot_of@, slot_reps@, placed@, c as int),
            reps_ok(verts@, placed@, reps@, c as int),
            !overlap ==> forall|k: int|
                0 <= k < c ==> #[trigger] placed@[k] is None && slot_of@[k] == k,
            !overlap ==> slot_reps.len() == c,
            overlap ==> forall|f: spec_fn(usize, usize) -> Option<R>| #[trigger]
                register_agrees(register, f) ==> all_slotted(
                    verts@,
                    keys@,
                    f,
                    slot_of@,
                    slot_reps@,
                    placed@,
                    c as int,
                ),
        decreases n - c,
    {
        let mut hit: Option<(usize, R)> = None;
        let ghost old_placed = placed@;
        let ghost old_of = slot_of@;
        let ghost old_slots = slot_reps@;
        let ghost old_reps = reps@;
        if overlap && verts[c] <= MAX_MATCH_VERTS {
            hit = first_match(keys, &reps, c, &register);
        }
        let ghost taken = hit;
        match hit {
            Some(h) => {
                let rep: usize = h.0;
                let slot: usize = slot_of[rep];
                slot_of.push(slot);
                placed.push(Some(h));
            },
            None => {
                let slot: usize = slot_reps.len();
                slot_of.push(slot);
                slot_reps.push(c);
                placed.push(None);
                if verts[c] <= MAX_MATCH_VERTS {
                    reps.push(c);
                }
            },
        }
        proof {
            lemma_wf_step(
                verts@,
                old_of,
                slot_of@,
                old_slots,
                slot_reps@,
                old_placed,
                placed@,
                old_reps,
                reps@,
                c,
                taken,
            );
            if overlap {
                assert forall|f: spec_fn(usize, usize) -> Option<R>| #[trigger]
                    register_agrees(register, f) implies all_slotted(
                    verts@,
                    keys@,
                    f,
                    slot_of@,
                    slot_reps@,
                    placed@,
                    c + 1,
                ) by {
                    lemma_slotted_step(
                        verts@,
                        keys@,
                        f,
                        old_of,
                        slot_of@,
                        old_slots,
                        slot_reps@,
                        old_placed,
                        placed@,
                        old_reps,
                        c,
                        taken,
                    );
                }
            }
        }
        c += 1;
    }
    proof {
        assert forall|f: spec_fn(usize, usize) -> Option<R>, k: int|
            #![trigger register_agrees(register, f), placed@[k]]
            overlap && register_agrees(register, f) && 0 <= k < verts.len() implies chart_slotted(
            verts@,
            keys@,
            f,
            slot_of@,
            slot_reps@,
            placed@,
            k,
        ) by {
            assert(all_slotted(verts@, keys@, f, slot_of@, slot_reps@, placed@, c as int));
        }
    }
    Grouping { slot_of, slot_reps, placed }
}

/// The chart whose layout chart `c` takes: itself, or the one it was laid over.
pub open spec fn home<R>(g: Grouping<R>, c: int) -> int {
    match g.placed@[c] {
        Some((r, v)) => r as int,
        None => c,
    }
}

/// Two charts share a slot exactly when they take the layout of the same chart.
pub proof fn law_slots_are_shared_by_layout<R>(n: int, g: Grouping<R>, c: int, d: int)
    requires
        grouping_wf(n, g),
        0 <= c < n,
        0 <= d < n,
    ensures
        g.slot_of@[c] == g.slot_of@[d] <==> home(g, c) == home(g, d),
{
    let a = home(g, c);
    let b = home(g, d);
    assert(g.placed@[c] == g.placed@[c] && g.placed@[d] == g.placed@[d]);
    assert(g.placed@[a] is None && g.placed@[b] is None);
    assert(g.slot_of@[c] == g.slot_of@[a]);
    assert(g.slot_of@[d] == g.slot_of@[b]);
    if a != b {
        assert(g.slot_reps@[g.slot_of@[a] as int] == a);
        assert(g.slot_reps@[g.slot_of@[b] as int] == b);
    }
}

/// Without overlap every chart has a slot of its own.
pub proof fn law_no_overlap_means_private_slots<R>(n: int, g: Grouping<R>, c: int, d: int)
    requires
        grouping_wf(n, g),
        forall|k: int| 0 <= k < n ==> #[trigger] g.placed@[k] is None && g.slot_of@[k] == k,
        0 <= c < n,
        0 <= d < n,
        c != d,
    ensures
        g.slot_of@[c] != g.slot_of@[d],
{
    assert(g.placed@[c] is None && g.placed@[d] is None);
}

} // verus!
