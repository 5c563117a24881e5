//! Bilinear resizing of a grid of samples.
//!
//! The arithmetic on samples is the caller's: it says between which two source
//! samples each output sample lies and how four samples are blended.

use vstd::prelude::*;

verus! {

/// A place on a source axis: `frac` of the way from sample `low` to the next.
#[derive(Debug)]
pub struct AxisPoint<T> {
    pub low: usize,
    pub frac: T,
}

/// The sample after `low` on an axis of `len` samples; the last one is its own
/// successor.
pub open spec fn next_sample(low: int, len: int) -> int {
    if low + 1 < len {
        low + 1
    } else {
        len - 1
    }
}

/// Every place is on an axis of `len` samples.
pub open spec fn on_axis<T>(points: Seq<AxisPoint<T>>, len: int) -> bool {
    forall|i: int| 0 <= i < points.len() ==> (#[trigger] points[i]).low < len
}

/// `value` may be what `blend` makes of the samples around a place in the grid.
pub open spec fn blended<T, F: Fn(T, T, T, T, T, T) -> T>(
    blend: F,
    src: Seq<T>,
    src_w: int,
    src_h: int,
    col: AxisPoint<T>,
    row: AxisPoint<T>,
    value: T,
) -> bool {
    let x_l = col.low as int;
    let y_l = row.low as int;
    let x_h = next_sample(x_l, src_w);
    let y_h = next_sample(y_l, src_h);
    call_ensures(
        blend,
        (
            src[y_l * src_w + x_l],
            src[y_l * src_w + x_h],
            src[y_h * src_w + x_l],
            src[y_h * src_w + x_h],
            col.frac,
            row.frac,
        ),
        value,
    )
}

/// `dst` is the grid `src` seen at the given columns and rows.
pub open spec fn resized<T, F: Fn(T, T, T, T, T, T) -> T>(
    blend: F,
    src: Seq<T>,
    src_w: int,
    src_h: int,
    columns: Seq<AxisPoint<T>>,
    rows: Seq<AxisPoint<T>>,
    dst: Seq<T>,
) -> bool {
    &&& dst.len() == rows.len() * columns.len()
    &&& forall|y: int, x: int|
        0 <= y < rows.len() && 0 <= x < columns.len() ==> blended(
            blend,
            src,
            src_w,
            src_h,
            columns[x],
            rows[y],
            #[trigger] dst[y * columns.len() + x],
        )
}

proof fn lemma_place(y: int, x: int, h: int, w: int)
    requires
        0 <= y < h,
        0 <= x < w,
    ensures
        0 <= y * w + x < h * w,
{
    assert(0 <= y * w) by (nonlinear_arith)
        requires
            0 <= y,
            0 <= w,
    ;
    assert(y * w + w <= h * w) by (nonlinear_arith)
        requires
            y + 1 <= h,
            0 <= w,
    ;
}

/// The sample after `low` on an axis of `len` samples.
fn successor(low: usize, len: usize) -> (next: usize)
    requires
        low < len,
    ensures
        next == next_sample(low as int, len as int),
        next < len,
{
    if low + 1 < len {
        low + 1
    } else {
        len - 1
    }
}

/// Resizes a grid of `src_h` rows of `src_w` samples: one output row for each
/// of `rows`, with one sample for each of `columns`, blended out of the four
/// source samples around it.
pub fn resize_bilinear<T: Copy, F: Fn(T, T, T, T, T, T) -> T>(
    src: &Vec<T>,
    src_w: usize,
    src_h: usize,
    columns: &Vec<AxisPoint<T>>,
    rows: &Vec<AxisPoint<T>>,
    blend: F,
) -> (dst: Vec<T>)
    requires
        src_w * src_h <= src@.len(),
        on_axis(columns@, src_w as int),
        on_axis(rows@, src_h as int),
        forall|a: T, b: T, c: T, d: T, x: T, y: T| call_requires(blend, (a, b, c, d, x, y)),
    ensures
        resized(blend, src@, src_w as int, src_h as int, columns@, rows@, dst@),
        dst@.len() == rows@.len() * columns@.len(),
        forall|y: int, x: int|
            0 <= y < rows@.len() && 0 <= x < columns@.len() ==> {
                let left = columns@[x].low as int;
                let right = if left + 1 < src_w {
                    left + 1
                } else {
                    left
                };
                let top = rows@[y].low as int;
                let bottom = if top + 1 < src_h {
                    top + 1
                } else {
                    top
                };
                call_ensures(
                    blend,
                    (
                        src@[top * src_w + left],
                        src@[top * src_w + right],
                        src@[bottom * src_w + left],
                        src@[bottom * src_w + right],
                        columns@[x].frac,
                        rows@[y].frac,
                    ),
                    #[trigger] dst@[y * columns@.len() + x],
                )
            },
{
    let mut dst: Vec<T> = Vec::new();
    let mut y: usize = 0;
    proof {
        assert(0 * columns@.len() == 0);
    }
    while y < rows.len()
        invariant
            y <= rows@.len(),
            src_w * src_h <= src@.len(),
            src@.len() == src.len(),
            on_axis(columns@, src_w as int),
            on_axis(rows@, src_h as int),
            forall|a: T, b: T, c: T, d: T, x: T, y: T| call_requires(blend, (a, b, c, d, x, y)),
            resized(
                blend,
                src@,
                src_w as int,
                src_h as int,
                columns@,
                rows@.take(y as int),
                dst@,
            ),
        decreases rows.len() - y,
    {
        let y_l: usize = rows[y].low;
        assert(rows@[y as int].low < src_h);
        let y_h: usize = successor(y_l, src_h);
        let mut x: usize = 0;
        while x < columns.len()
            invariant
                y < rows@.len(),
                x <= columns@.len(),
                src_w * src_h <= src@.len(),
                src@.len() == src.len(),
                y_l == rows@[y as int].low,
                y_l < src_h,
                y_h < src_h,
                y_h == next_sample(y_l as int, src_h as int),
                on_axis(columns@, src_w as int),
                forall|a: T, b: T, c: T, d: T, x: T, y: T|
                    call_requires(blend, (a, b, c, d, x, y)),
                dst@.len() == y * columns@.len() + x,
                forall|v: int, u: int|
                    0 <= v < y && 0 <= u < columns@.len() ==> blended(
                        blend,
                        src@,
                        src_w as int,
                        src_h as int,
                        columns@[u],
                        rows@[v],
                        #[trigger] dst@[v * columns@.len() + u],
                    ),
                forall|u: int|
                    0 <= u < x ==> blended(
                        blend,
                        src@,
                        src_w as int,
                        src_h as int,
                        columns@[u],
                        rows@[y as int],
                        #[trigger] dst@[y * columns@.len() + u],
                    ),
            decreases columns.len() - x,
        {
            let x_l: usize = columns[x].low;
            assert(columns@[x as int].low < src_w);
            let x_h: usize = successor(x_l, src_w);
            proof {
                assert(src_h * src_w == src_w * src_h) by (nonlinear_arith);
                lemma_place(y_l as int, x_l as int, src_h as int, src_w as int);
                lemma_place(y_l as int, x_h as int, src_h as int, src_w as int);
                lemma_place(y_h as int, x_l as int, src_h as int, src_w as int);
                lemma_place(y_h as int, x_h as int, src_h as int, src_w as int);
                assert(0 <= y_l * src_w && 0 <= y_h * src_w) by (nonlinear_arith)
                    requires
                        0 <= y_l,
                        0 <= y_h,
                        0 <= src_w,
                ;
            }
            let a = src[y_l * src_w + x_l];
            let b = src[y_l * src_w + x_h];
            let c = src[y_h * src_w + x_l];
            let d = src[y_h * src_w + x_h];
            let ghost before = dst@;
            dst.push(blend(a, b, c, d, columns[x].frac, rows[y].frac));
            proof {
                assert forall|v: int, u: int| 0 <= v < y && 0 <= u < columns@.len() implies blended(
                    blend,
                    src@,
                    src_w as int,
                    src_h as int,
                    columns@[u],
                    rows@[v],
                    #[trigger] dst@[v * columns@.len() + u],
                ) by {
                    lemma_place(v, u, y as int, columns@.len() as int);
                    assert(dst@[v * columns@.len() + u] == before[v * columns@.len() + u]);
                }
                assert(0 <= y * columns@.len()) by (nonlinear_arith);
            }
            x = x + 1;
        }
        proof {
            let w = columns@.len() as int;
            assert((y + 1) * w == y * w + w) by (nonlinear_arith);
            let taken = rows@.take(y + 1);
            assert forall|v: int, u: int| 0 <= v < taken.len() && 0 <= u < w implies blended(
                blend,
                src@,
                src_w as int,
                src_h as int,
                columns@[u],
                taken[v],
                #[trigger] dst@[v * w + u],
            ) by {
                if v == y {
                    assert(dst@[y * w + u] == dst@[v * w + u]);
                }
            }
        }
        y = y + 1;
    }
    assert(rows@.take(y as int) =~= rows@);
    proof {
        assert forall|y: int, x: int| 0 <= y < rows@.len() && 0 <= x < columns@.len() implies {
            let left = columns@[x].low as int;
            let right = if left + 1 < src_w {
                left + 1
            } else {
                left
            };
            let top = rows@[y].low as int;
            let bottom = if top + 1 < src_h {
                top + 1
            } else {
                top
            };
            call_ensures(
                blend,
                (
                    src@[top * src_w + left],
                    src@[top * src_w + right],
                    src@[bottom * src_w + left],
                    src@[bottom * src_w + right],
                    columns@[x].frac,
                    rows@[y].frac,
                ),
                #[trigger] dst@[y * columns@.len() + x],
            )
        } by {
            assert(columns@[x].low < src_w);
            assert(rows@[y].low < src_h);
            assert(blended(
                blend,
                src@,
                src_w as int,
                src_h as int,
                columns@[x],
                rows@[y],
                dst@[y * columns@.len() + x],
            ));
        }
    }
    dst
}

/// The four samples that are blended are neighbours: those in the place's row
/// and the next, in its column and the next, where the last row and the last
/// column stand for the one after them.
pub proof fn law_neighbours_are_blended<T, F: Fn(T, T, T, T, T, T) -> T>(
    blend: F,
    src: Seq<T>,
    src_w: int,
    src_h: int,
    columns: Seq<AxisPoint<T>>,
    rows: Seq<AxisPoint<T>>,
    dst: Seq<T>,
    y: int,
    x: int,
)
    requires
        on_axis(columns, src_w),
        on_axis(rows, src_h),
        resized(blend, src, src_w, src_h, columns, rows, dst),
        0 <= y < rows.len(),
        0 <= x < columns.len(),
    ensures
        exists|right: int, bottom: int|
            (right == columns[x].low + 1 && right < src_w || right == columns[x].low && right
                == src_w - 1) && (bottom == rows[y].low + 1 && bottom < src_h || bottom
                == rows[y].low && bottom == src_h - 1) && #[trigger] call_ensures(
                blend,
                (
                    src[rows[y].low * src_w + columns[x].low],
                    src[rows[y].low * src_w + right],
                    src[bottom * src_w + columns[x].low],
                    src[bottom * src_w + right],
                    columns[x].frac,
                    rows[y].frac,
                ),
                dst[y * columns.len() + x],
            ),
{
    assert(columns[x].low < src_w);
    assert(rows[y].low < src_h);
    let right = next_sample(columns[x].low as int, src_w);
    let bottom = next_sample(rows[y].low as int, src_h);
    assert(blended(blend, src, src_w, src_h, columns[x], rows[y], dst[y * columns.len() + x]));
    assert(call_ensures(
        blend,
        (
            src[rows[y].low * src_w + columns[x].low],
            src[rows[y].low * src_w + right],
            src[bottom * src_w + columns[x].low],
            src[bottom * src_w + right],
            columns[x].frac,
            rows[y].frac,
        ),
        dst[y * columns.len() + x],
    ));
}

/// A grid whose rows each hold one value is blended from the values of the
/// place's row and the next row alone.
pub proof fn law_even_rows_blend_with_the_next_row<T, F: Fn(T, T, T, T, T, T) -> T>(
    blend: F,
    src: Seq<T>,
    value: spec_fn(int) -> T,
    src_w: int,
    src_h: int,
    columns: Seq<AxisPoint<T>>,
    rows: Seq<AxisPoint<T>>,
    dst: Seq<T>,
    y: int,
    x: int,
)
    requires
        forall|v: int, u: int|
            0 <= v < src_h && 0 <= u < src_w ==> #[trigger] src[v * src_w + u] == value(v),
        on_axis(columns, src_w),
        on_axis(rows, src_h),
        resized(blend, src, src_w, src_h, columns, rows, dst),
        0 <= y < rows.len(),
        0 <= x < columns.len(),
    ensures
        ({
            let here = value(rows[y].low as int);
            let next = value(
                if rows[y].low + 1 < src_h {
                    rows[y].low + 1
                } else {
                    rows[y].low as int
                },
            );
            call_ensures(
                blend,
                (here, here, next, next, columns[x].frac, rows[y].frac),
                dst[y * columns.len() + x],
            )
        }),
{
    assert(columns[x].low < src_w);
    assert(rows[y].low < src_h);
    let left = columns[x].low as int;
    let right = next_sample(left, src_w);
    let top = rows[y].low as int;
    let bottom = next_sample(top, src_h);
    assert(src[top * src_w + left] == value(top));
    assert(src[top * src_w + right] == value(top));
    assert(src[bottom * src_w + left] == value(bottom));
    assert(src[bottom * src_w + right] == value(bottom));
    assert(blended(blend, src, src_w, src_h, columns[x], rows[y], dst[y * columns.len() + x]));
}

/// A grid whose columns each hold one value is blended from the values of the
/// place's column and the next column alone.
pub proof fn law_even_columns_blend_with_the_next_column<T, F: Fn(T, T, T, T, T, T) -> T>(
    blend: F,
    src: Seq<T>,
    value: spec_fn(int) -> T,
    src_w: int,
    src_h: int,
    columns: Seq<AxisPoint<T>>,
    rows: Seq<AxisPoint<T>>,
    dst: Seq<T>,
    y: int,
    x: int,
)
    requires
        forall|v: int, u: int|
            0 <= v < src_h && 0 <= u < src_w ==> #[trigger] src[v * src_w + u] == value(u),
        on_axis(columns, src_w),
        on_axis(rows, src_h),
        resized(blend, src, src_w, src_h, columns, rows, dst),
        0 <= y < rows.len(),
        0 <= x < columns.len(),
    ensures
        ({
            let here = value(columns[x].low as int);
            let next = value(
                if columns[x].low + 1 < src_w {
                    columns[x].low + 1
                } else {
                    columns[x].low as int
                },
            );
            call_ensures(
                blend,
                (here, next, here, next, columns[x].frac, rows[y].frac),
                dst[y * columns.len() + x],
            )
        }),
{
    assert(columns[x].low < src_w);
    assert(rows[y].low < src_h);
    let left = columns[x].low as int;
    let right = next_sample(left, src_w);
    let top = rows[y].low as int;
    let bottom = next_sample(top, src_h);
    assert(src[top * src_w + left] == value(left));
    assert(src[top * src_w + right] == value(right));
    assert(src[bottom * src_w + left] == value(left));
    assert(src[bottom * src_w + right] == value(right));
    assert(blended(blend, src, src_w, src_h, columns[x], rows[y], dst[y * columns.len() + x]));
}

} // verus!
