//! Numbering values in the order they are first seen.

use std::collections::HashMap;
use vstd::prelude::*;

verus! {

broadcast use vstd::std_specs::hash::group_hash_axioms;

/// Position `i` repeats a value seen before it.
pub open spec fn repeats<T>(s: Seq<T>, i: int) -> bool {
    exists|j: int| 0 <= j < i && #[trigger] s[j] == s[i]
}

/// The positions, among the first `n`, at which a value is seen for the first time.
pub open spec fn firsts<T>(s: Seq<T>, n: int) -> Seq<int>
    decreases n,
{
    if n <= 0 {
        Seq::empty()
    } else if repeats(s, n - 1) {
        firsts(s, n - 1)
    } else {
        firsts(s, n - 1).push(n - 1)
    }
}

/// `ids` numbers the values of `s` from 0 in the order they are first seen: equal values
/// share a number, and number `k` belongs to the `k`-th new value.
pub open spec fn numbers<T>(s: Seq<T>, ids: Seq<u32>) -> bool {
    &&& ids.len() == s.len()
    &&& forall|i: int|
        0 <= i < s.len() ==> (#[trigger] ids[i]) < firsts(s, s.len() as int).len() && s[firsts(
            s,
            s.len() as int,
        )[ids[i] as int]] == s[i]
}

/// First positions ascend and hold pairwise different values.
pub proof fn lemma_firsts<T>(s: Seq<T>, n: int)
    requires
        0 <= n <= s.len(),
    ensures
        firsts(s, n).len() <= n,
        forall|k: int| 0 <= k < firsts(s, n).len() ==> 0 <= #[trigger] firsts(s, n)[k] < n,
        forall|j: int, k: int|
            0 <= j < k < firsts(s, n).len() ==> #[trigger] firsts(s, n)[j] < #[trigger] firsts(
                s,
                n,
            )[k] && s[firsts(s, n)[j]] != s[firsts(s, n)[k]],
    decreases n,
{
    if n > 0 {
        lemma_firsts(s, n - 1);
        let before = firsts(s, n - 1);
        if !repeats(s, n - 1) {
            assert forall|k: int| 0 <= k < before.len() implies s[#[trigger] before[k]] != s[n
                - 1] by {
                if s[before[k]] == s[n - 1] {
                    assert(repeats(s, n - 1));
                }
            }
        }
    }
}

/// Two sequences with the same equalities have the same first positions.
proof fn lemma_firsts_same<T, U>(s: Seq<T>, t: Seq<U>, n: int)
    requires
        s.len() == t.len(),
        0 <= n <= s.len(),
        forall|i: int, j: int|
            0 <= i < s.len() && 0 <= j < s.len() ==> (#[trigger] s[i] == #[trigger] s[j] <==> t[i]
                == t[j]),
    ensures
        firsts(s, n) == firsts(t, n),
    decreases n,
{
    if n > 0 {
        lemma_firsts_same(s, t, n - 1);
        if repeats(s, n - 1) {
            let j = choose|j: int| 0 <= j < n - 1 && #[trigger] s[j] == s[n - 1];
            assert(t[j] == t[n - 1]);
        }
        if repeats(t, n - 1) {
            let j = choose|j: int| 0 <= j < n - 1 && #[trigger] t[j] == t[n - 1];
            assert(s[j] == s[n - 1]);
        }
    }
}

/// A numbering only depends on which values are equal.
pub proof fn lemma_numbers_same<T, U>(s: Seq<T>, t: Seq<U>, ids: Seq<u32>)
    requires
        numbers(s, ids),
        s.len() == t.len(),
        forall|i: int, j: int|
            0 <= i < s.len() && 0 <= j < s.len() ==> (#[trigger] s[i] == #[trigger] s[j] <==> t[i]
                == t[j]),
    ensures
        numbers(t, ids),
{
    let n = s.len() as int;
    lemma_firsts_same(s, t, n);
    lemma_firsts(s, n);
    assert forall|i: int| 0 <= i < n implies (#[trigger] ids[i]) < firsts(t, n).len() && t[firsts(
        t,
        n,
    )[ids[i] as int]] == t[i] by {
        let f = firsts(s, n)[ids[i] as int];
        assert(0 <= f < n);
        assert(s[f] == s[i]);
    }
}

/// Equal values, and only those, share a number.
pub proof fn lemma_numbers_eq<T>(s: Seq<T>, ids: Seq<u32>, i: int, j: int)
    requires
        numbers(s, ids),
        0 <= i < s.len(),
        0 <= j < s.len(),
    ensures
        ids[i] == ids[j] <==> s[i] == s[j],
{
    let n = s.len() as int;
    lemma_firsts(s, n);
    let a = ids[i] as int;
    let b = ids[j] as int;
    if a < b {
        assert(s[firsts(s, n)[a]] != s[firsts(s, n)[b]]);
    } else if b < a {
        assert(s[firsts(s, n)[b]] != s[firsts(s, n)[a]]);
    }
}

/// Numbers keys in the order they are first seen.
pub fn number_keys(keys: &Vec<u128>) -> (ids: Vec<u32>)
    requires
        keys.len() <= u32::MAX,
    ensures
        numbers(keys@, ids@),
{
    let mut map: HashMap<u128, u32> = HashMap::new();
    let mut ids: Vec<u32> = Vec::new();
    let mut next: u32 = 0;
    let mut i: usize = 0;
    while i < keys.len()
        invariant
            i <= keys.len() <= u32::MAX,
            ids.len() == i,
            next == firsts(keys@, i as int).len(),
            forall|j: int| 0 <= j < i ==> map@.contains_key(#[trigger] keys@[j]),
            forall|key: u128| #[trigger]
                map@.contains_key(key) ==> map@[key] < next && keys@[firsts(
                    keys@,
                    i as int,
                )[map@[key] as int]] == key,
            forall|j: int|
                0 <= j < i ==> (#[trigger] ids@[j]) < next && keys@[firsts(
                    keys@,
                    i as int,
                )[ids@[j] as int]] == keys@[j],
        decreases keys.len() - i,
    {
        let key: u128 = keys[i];
        let ghost before = firsts(keys@, i as int);
        let ghost after = firsts(keys@, i + 1);
        proof {
            lemma_firsts(keys@, i as int);
            assert forall|k: int| 0 <= k < before.len() implies after[k] == before[k] by {}
        }
        match map.get(&key) {
            Some(id) => {
                let id: u32 = *id;
                proof {
                    let f = before[id as int];
                    assert(keys@[f] == keys@[i as int]);
                    assert(repeats(keys@, i as int));
                }
                ids.push(id);
            },
            None => {
                proof {
                    assert(!repeats(keys@, i as int));
                    assert(after == before.push(i as int));
                }
                map.insert(key, next);
                ids.push(next);
                next += 1;
            },
        }
        i += 1;
    }
    ids
}

} // verus!
