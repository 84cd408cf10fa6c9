//! Walking the texels of a box.

use vstd::prelude::*;

verus! {

/// The answers of `inside` all agree with the function `f` of column and row.
pub open spec fn inside_agrees<T, S: Fn(u32, u32) -> Option<T>>(
    inside: S,
    f: spec_fn(u32, u32) -> Option<T>,
) -> bool {
    forall|x: u32, y: u32, out: Option<T>| #[trigger]
        inside.ensures((x, y), out) ==> out == f(x, y)
}

/// The texels of row `y` in columns `x0 .. x1` that are inside, left to right.
pub open spec fn row_found<T>(
    f: spec_fn(u32, u32) -> Option<T>,
    size: u32,
    x0: int,
    x1: int,
    y: int,
) -> Seq<(usize, T)>
    decreases x1 - x0,
{
    if x1 <= x0 {
        Seq::empty()
    } else {
        let before = row_found(f, size, x0, x1 - 1, y);
        match f((x1 - 1) as u32, y as u32) {
            Some(v) => before.push(((y * size + x1 - 1) as usize, v)),
            None => before,
        }
    }
}

/// The texels of the box that are inside, row by row.
pub open spec fn box_found<T>(
    f: spec_fn(u32, u32) -> Option<T>,
    size: u32,
    x0: int,
    x1: int,
    y0: int,
    y1: int,
) -> Seq<(usize, T)>
    decreases y1 - y0,
{
    if y1 <= y0 {
        Seq::empty()
    } else {
        box_found(f, size, x0, x1, y0, y1 - 1) + row_found(f, size, x0, x1, y1 - 1)
    }
}

/// The texels of the box in columns `x0 .. x1` and rows `y0 .. y1` of a square image that
/// `inside` gives a value for, row by row: a triangle's footprint with its weights, or a
/// disc's with its coverage.
pub fn rasterize<T: Copy, S: Fn(u32, u32) -> Option<T>>(
    size: u32,
    x0: u32,
    x1: u32,
    y0: u32,
    y1: u32,
    inside: &S,
) -> (out: Vec<(usize, T)>)
    requires
        size * size <= u32::MAX,
        x1 <= size,
        y1 <= size,
        forall|x: u32, y: u32| #[trigger] inside.requires((x, y)),
    ensures
        forall|f: spec_fn(u32, u32) -> Option<T>| #[trigger]
            inside_agrees(*inside, f) ==> out@ == box_found(
                f,
                size,
                x0 as int,
                x1 as int,
                y0 as int,
                y1 as int,
            ),
        forall|i: int| 0 <= i < out.len() ==> (#[trigger] out@[i]).0 < size * size,
{
    let mut out: Vec<(usize, T)> = Vec::new();
    let mut y: u32 = y0;
    while y < y1
        invariant
            size * size <= u32::MAX,
            x1 <= size,
            y1 <= size,
            y0 <= y,
            y <= y1 || y == y0,
            forall|x: u32, y: u32| #[trigger] inside.requires((x, y)),
            forall|f: spec_fn(u32, u32) -> Option<T>| #[trigger]
                inside_agrees(*inside, f) ==> out@ == box_found(
                    f,
                    size,
                    x0 as int,
                    x1 as int,
                    y0 as int,
                    y as int,
                ),
            forall|i: int| 0 <= i < out.len() ==> (#[trigger] out@[i]).0 < size * size,
        decreases y1 - y,
    {
        let ghost above = out@;
        let mut x: u32 = x0;
        assert(forall|f: spec_fn(u32, u32) -> Option<T>| #[trigger]
            inside_agrees(*inside, f) ==> out@ =~= above + row_found(
                f,
                size,
                x0 as int,
                x0 as int,
                y as int,
            ));
        while x < x1
            invariant
                size * size <= u32::MAX,
                x1 <= size,
                y < y1 <= size,
                x0 <= x,
                x <= x1 || x == x0,
                forall|x: u32, y: u32| #[trigger] inside.requires((x, y)),
                forall|f: spec_fn(u32, u32) -> Option<T>| #[trigger]
                    inside_agrees(*inside, f) ==> out@ == above + row_found(
                        f,
                        size,
                        x0 as int,
                        x as int,
                        y as int,
                    ),
                forall|i: int| 0 <= i < out.len() ==> (#[trigger] out@[i]).0 < size * size,
            decreases x1 - x,
        {
            let ghost before = out@;
            assert(y * size + x < size * size && y * size <= size * size) by (nonlinear_arith)
                requires
                    y < size,
                    x < size,
            ;
            match (*inside)(x, y) {
                Some(v) => {
                    out.push(((y * size + x) as usize, v));
                },
                None => {},
            }
            proof {
                assert forall|f: spec_fn(u32, u32) -> Option<T>| #[trigger]
                    inside_agrees(*inside, f) implies out@ == above + row_found(
                    f,
                    size,
                    x0 as int,
                    x + 1,
                    y as int,
                ) by {
                    let r = row_found(f, size, x0 as int, x as int, y as int);
                    match f(x, y) {
                        Some(v) => {
                            assert(out@ =~= above + r.push(((y * size + x) as usize, v)));
                        },
                        None => {},
                    }
                }
            }
            x += 1;
        }
        proof {
            assert forall|f: spec_fn(u32, u32) -> Option<T>| #[trigger]
                inside_agrees(*inside, f) implies out@ == box_found(
                f,
                size,
                x0 as int,
                x1 as int,
                y0 as int,
                y + 1,
            ) by {
                if x1 <= x0 {
                    assert(row_found(f, size, x0 as int, x1 as int, y as int) =~= row_found(
                        f,
                        size,
                        x0 as int,
                        x as int,
                        y as int,
                    ));
                }
            }
        }
        y += 1;
    }
    out
}

} // verus!
