//! Picking one of several: by the greatest or least key, the farthest pair, the first fit.
//!
//! Keys stand for measures of the caller; their order is the order of the measures.

use vstd::prelude::*;

verus! {

/// Entry `i` has the greatest key over `floor`, and none before it has the same.
pub open spec fn is_first_greatest(keys: Seq<Option<u32>>, floor: u32, i: int) -> bool {
    &&& 0 <= i < keys.len()
    &&& keys[i] is Some
    &&& keys[i]->0 > floor
    &&& forall|j: int|
        0 <= j < keys.len() && #[trigger] keys[j] is Some ==> keys[j]->0 <= keys[i]->0 && (j < i
            ==> keys[j]->0 < keys[i]->0)
}

/// The first entry with the greatest key over `floor`; entries without a key are passed over.
pub fn first_greatest(keys: &Vec<Option<u32>>, floor: u32) -> (r: Option<usize>)
    ensures
        r matches Some(i) ==> is_first_greatest(keys@, floor, i as int),
        r is None ==> forall|j: int|
            0 <= j < keys.len() && #[trigger] keys@[j] is Some ==> keys@[j]->0 <= floor,
{
    let mut best: Option<usize> = None;
    let mut top: u32 = floor;
    let mut k: usize = 0;
    while k < keys.len()
        invariant
            k <= keys.len(),
            top >= floor,
            best is None ==> top == floor,
            best matches Some(i) ==> i < k && keys@[i as int] == Some(top) && top > floor && (
            forall|j: int|
                0 <= j < i && #[trigger] keys@[j] is Some ==> keys@[j]->0 < top),
            forall|j: int|
                0 <= j < k && #[trigger] keys@[j] is Some ==> keys@[j]->0 <= top,
        decreases keys.len() - k,
    {
        match keys[k] {
            Some(x) => {
                if x > top {
                    top = x;
                    best = Some(k);
                }
            },
            None => {},
        }
        k += 1;
    }
    best
}

/// Entry `i` has the least key, and none before it has the same.
pub open spec fn is_first_least(keys: Seq<Option<u32>>, i: int) -> bool {
    &&& 0 <= i < keys.len()
    &&& keys[i] is Some
    &&& forall|j: int|
        0 <= j < keys.len() && #[trigger] keys[j] is Some ==> keys[i]->0 <= keys[j]->0 && (j < i
            ==> keys[i]->0 < keys[j]->0)
}

/// The first entry with the least key; entries without a key are passed over.
pub fn first_least(keys: &Vec<Option<u32>>) -> (r: Option<usize>)
    ensures
        r matches Some(i) ==> is_first_least(keys@, i as int),
        r is None ==> forall|j: int| 0 <= j < keys.len() ==> (#[trigger] keys@[j]) is None,
{
    let mut best: Option<usize> = None;
    let mut low: u32 = 0;
    let mut k: usize = 0;
    while k < keys.len()
        invariant
            k <= keys.len(),
            best is None ==> forall|j: int| 0 <= j < k ==> (#[trigger] keys@[j]) is None,
            best matches Some(i) ==> i < k && keys@[i as int] == Some(low) && (forall|j: int|
                0 <= j < k && #[trigger] keys@[j] is Some ==> low <= keys@[j]->0 && (j < i ==> low
                    < keys@[j]->0)),
        decreases keys.len() - k,
    {
        match keys[k] {
            Some(x) => {
                if best.is_none() || x < low {
                    low = x;
                    best = Some(k);
                }
            },
            None => {},
        }
        k += 1;
    }
    best
}

/// The edge to square each chart to: the first one whose bounding box is smallest, by the
/// areas of the boxes. An edge too short to measure has no area; a chart without a
/// measurable edge is left as it is.
pub fn chart_rectify(areas: &Vec<Vec<Option<u32>>>) -> (edges: Vec<Option<usize>>)
    ensures
        edges.len() == areas.len(),
        forall|c: int|
            0 <= c < edges.len() ==> match #[trigger] edges@[c] {
                Some(e) => is_first_least(areas@[c]@, e as int),
                None => forall|j: int|
                    0 <= j < areas@[c].len() ==> (#[trigger] areas@[c]@[j]) is None,
            },
{
    let mut edges: Vec<Option<usize>> = Vec::new();
    let mut c: usize = 0;
    while c < areas.len()
        invariant
            c <= areas.len(),
            edges.len() == c,
            forall|k: int|
                0 <= k < c ==> match #[trigger] edges@[k] {
                    Some(e) => is_first_least(areas@[k]@, e as int),
                    None => forall|j: int|
                        0 <= j < areas@[k].len() ==> (#[trigger] areas@[k]@[j]) is None,
                },
        decreases areas.len() - c,
    {
        edges.push(first_least(&areas[c]));
        c += 1;
    }
    edges
}

/// The answers of `measure` all agree with the function `f`.
pub open spec fn measure_agrees<M: Fn(usize, usize) -> u32>(
    measure: M,
    f: spec_fn(usize, usize) -> u32,
) -> bool {
    forall|i: usize, j: usize, d: u32| #[trigger] measure.ensures((i, j), d) ==> d == f(i, j)
}

/// Pair `(a, b)` comes before pair `(i, j)`.
pub open spec fn pair_before(a: int, b: int, i: int, j: int) -> bool {
    a < i || (a == i && b < j)
}

/// `(i, j)` is the first farthest pair of `n` points.
pub open spec fn is_diameter(
    n: int,
    f: spec_fn(usize, usize) -> u32,
    i: usize,
    j: usize,
) -> bool {
    &&& i < j < n
    &&& f(i, j) > 0
    &&& forall|a: usize, b: usize|
        a < b < n ==> #[trigger] f(a, b) <= f(i, j) && (pair_before(
            a as int,
            b as int,
            i as int,
            j as int,
        ) ==> f(a, b) < f(i, j))
}

/// The farthest pair of `n` points by their distance, or `None` where all coincide.
pub fn diameter<M: Fn(usize, usize) -> u32>(n: usize, measure: &M) -> (r: Option<(usize, usize)>)
    requires
        forall|i: usize, j: usize| #[trigger] measure.requires((i, j)),
    ensures
        forall|f: spec_fn(usize, usize) -> u32| #[trigger]
            measure_agrees(*measure, f) ==> match r {
                Some((i, j)) => is_diameter(n as int, f, i, j),
                None => forall|a: usize, b: usize| a < b < n ==> #[trigger] f(a, b) == 0,
            },
{
    let mut best: Option<(usize, usize)> = None;
    let mut top: u32 = 0;
    let mut i: usize = 0;
    while i < n
        invariant
            i <= n,
            forall|i: usize, j: usize| #[trigger] measure.requires((i, j)),
            forall|f: spec_fn(usize, usize) -> u32| #[trigger]
                measure_agrees(*measure, f) ==> farthest_so_far(
                    f,
                    n as int,
                    i as int,
                    0,
                    best,
                    top,
                ),
        decreases n - i,
    {
        let mut j: usize = i + 1;
        while j < n
            invariant
                i < j <= n,
                forall|i: usize, j: usize| #[trigger] measure.requires((i, j)),
                forall|f: spec_fn(usize, usize) -> u32| #[trigger]
                    measure_agrees(*measure, f) ==> farthest_so_far(
                        f,
                        n as int,
                        i as int,
                        j as int,
                        best,
                        top,
                    ),
            decreases n - j,
        {
            let d: u32 = (*measure)(i, j);
            if d > top {
                top = d;
                best = Some((i, j));
            }
            j += 1;
        }
        i += 1;
    }
    best
}

/// Among the pairs before `(i, j)`, the first farthest is `best` at distance `top`.
spec fn farthest_so_far(
    f: spec_fn(usize, usize) -> u32,
    n: int,
    i: int,
    j: int,
    best: Option<(usize, usize)>,
    top: u32,
) -> bool {
    &&& forall|a: usize, b: usize|
        a < b < n && pair_before(a as int, b as int, i, j) ==> #[trigger] f(a, b) <= top
    &&& match best {
        None => top == 0,
        Some((p, q)) => {
            &&& p < q < n
            &&& pair_before(p as int, q as int, i, j)
            &&& top > 0
            &&& f(p, q) == top
            &&& forall|a: usize, b: usize|
                a < b < n && pair_before(a as int, b as int, p as int, q as int)
                    ==> #[trigger] f(a, b) < top
        },
    }
}

/// The answers of `fits` all agree with the test `f`.
pub open spec fn fits_agrees<G: Fn(bool, bool) -> bool>(
    fits: G,
    f: spec_fn(bool, bool) -> bool,
) -> bool {
    forall|s: bool, m: bool, out: bool| #[trigger] fits.ensures((s, m), out) ==> out == f(s, m)
}

/// Registers one shape on another along their diameters: the ends as they are or swapped,
/// each plain and then mirrored, and the first of the four that lines everything up wins.
/// `None`: they are different shapes.
pub fn register<G: Fn(bool, bool) -> bool>(fits: &G) -> (r: Option<(bool, bool)>)
    requires
        forall|s: bool, m: bool| #[trigger] fits.requires((s, m)),
    ensures
        forall|f: spec_fn(bool, bool) -> bool| #[trigger]
            fits_agrees(*fits, f) ==> r == if f(false, false) {
                Some((false, false))
            } else if f(false, true) {
                Some((false, true))
            } else if f(true, false) {
                Some((true, false))
            } else if f(true, true) {
                Some((true, true))
            } else {
                None
            },
        r matches Some(p) ==> fits.ensures(p, true),
        r != Some((false, false)) ==> fits.ensures((false, false), false),
        r != Some((false, false)) && r != Some((false, true)) ==> fits.ensures(
            (false, true),
            false,
        ),
        r is None || r == Some((true, true)) ==> fits.ensures((true, false), false),
        r is None ==> fits.ensures((true, true), false),
{
    if (*fits)(false, false) {
        Some((false, false))
    } else if (*fits)(false, true) {
        Some((false, true))
    } else if (*fits)(true, false) {
        Some((true, false))
    } else if (*fits)(true, true) {
        Some((true, true))
    } else {
        None
    }
}

/// The compass axis a click selects: none outside the gizmo or in the dead zone at its
/// centre, and else the one its direction is best aligned with, over `floor`. An axis that
/// points at the viewer has no direction on the screen.
pub fn compass_axis_at(
    inside: bool,
    dead: bool,
    aligned: &Vec<Option<u32>>,
    floor: u32,
) -> (axis: Option<usize>)
    ensures
        !inside || dead ==> axis is None,
        inside && !dead ==> match axis {
            Some(i) => is_first_greatest(aligned@, floor, i as int),
            None => forall|j: int|
                0 <= j < aligned.len() && #[trigger] aligned@[j] is Some ==> aligned@[j]->0
                    <= floor,
        },
{
    if !inside || dead {
        return None;
    }
    first_greatest(aligned, floor)
}

} // verus!
