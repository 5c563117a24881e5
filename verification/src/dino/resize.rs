//! Bicubic resampling of `[h, w, c]` grids in its two variants, antialiased
//! and with a fixed support of four samples.
//!
//! What is decided here is which samples take part, with which weight, and in
//! which order they are added up. The arithmetic on samples and weights is the
//! caller's.

use vstd::prelude::*;

verus! {

/// The taps of one output sample: the weights of consecutive source samples,
/// from sample `start` on.
#[derive(Debug)]
pub struct Taps<T> {
    pub start: usize,
    pub weights: Vec<T>,
}

/// The taps stay on a source axis of `len` samples.
pub open spec fn taps_within<T>(taps: Seq<Taps<T>>, len: int) -> bool {
    forall|i: int|
        0 <= i < taps.len() ==> (#[trigger] taps[i]).start + taps[i].weights@.len() <= len
}

/// `sums` are running sums: they start from `zero`, and each sample is added
/// with its weight.
pub open spec fn running_sums<T, M: Fn(T, T, T) -> T>(
    mul_add: M,
    zero: T,
    weights: Seq<T>,
    samples: Seq<T>,
    sums: Seq<T>,
) -> bool {
    &&& sums.len() == weights.len() + 1
    &&& sums[0] == zero
    &&& forall|k: int|
        0 <= k < weights.len() ==> call_ensures(
            mul_add,
            (sums[k], #[trigger] weights[k], samples[k]),
            sums[k + 1],
        )
}

/// `value` may be the outcome of starting from `zero` and adding each sample
/// with its weight, one after the other.
pub open spec fn gathered<T, M: Fn(T, T, T) -> T>(
    mul_add: M,
    zero: T,
    weights: Seq<T>,
    samples: Seq<T>,
    value: T,
) -> bool {
    exists|sums: Seq<T>| #[trigger]
        running_sums(mul_add, zero, weights, samples, sums) && sums.last() == value
}

/// Without weights, nothing is added.
proof fn lemma_nothing_gathered<T, M: Fn(T, T, T) -> T>(
    mul_add: M,
    zero: T,
    weights: Seq<T>,
    samples: Seq<T>,
)
    requires
        weights.len() == 0,
    ensures
        gathered(mul_add, zero, weights, samples, zero),
{
    assert(running_sums(mul_add, zero, weights, samples, seq![zero]));
}

/// `count` samples, from sample `first` on, `stride` apart.
pub open spec fn strided<T>(src: Seq<T>, first: int, stride: int, count: nat) -> Seq<T> {
    Seq::new(count, |k: int| src[first + k * stride])
}

/// Adds up weighted samples that are `stride` apart.
fn gather<T: Copy, M: Fn(T, T, T) -> T>(
    src: &Vec<T>,
    first: usize,
    stride: usize,
    weights: &Vec<T>,
    zero: T,
    mul_add: &M,
) -> (value: T)
    requires
        forall|k: int|
            0 <= k < weights@.len() ==> first + #[trigger] (k * stride) < src@.len(),
        forall|acc: T, weight: T, sample: T| call_requires(*mul_add, (acc, weight, sample)),
    ensures
        gathered(
            *mul_add,
            zero,
            weights@,
            strided(src@, first as int, stride as int, weights@.len()),
            value,
        ),
{
    let ghost samples = strided(src@, first as int, stride as int, weights@.len());
    let ghost mut sums: Seq<T> = seq![zero];
    let mut value: T = zero;
    let mut k: usize = 0;
    while k < weights.len()
        invariant
            k <= weights@.len(),
            src@.len() == src.len(),
            samples == strided(src@, first as int, stride as int, weights@.len()),
            forall|k: int|
                0 <= k < weights@.len() ==> first + #[trigger] (k * stride) < src@.len(),
            forall|acc: T, weight: T, sample: T| call_requires(*mul_add, (acc, weight, sample)),
            running_sums(*mul_add, zero, weights@.take(k as int), samples, sums),
            sums.last() == value,
        decreases weights.len() - k,
    {
        assert(first + k * stride < src@.len());
        assert(0 <= k * stride) by (nonlinear_arith);
        let ghost before = sums;
        value = mul_add(value, weights[k], src[first + k * stride]);
        proof {
            sums = sums.push(value);
            let w = weights@.take(k + 1);
            assert forall|i: int| 0 <= i < w.len() implies call_ensures(
                *mul_add,
                (sums[i], #[trigger] w[i], samples[i]),
                sums[i + 1],
            ) by {
                if i < k {
                    assert(w[i] == weights@.take(k as int)[i]);
                }
            }
        }
        k = k + 1;
    }
    proof {
        assert(weights@.take(k as int) =~= weights@);
        assert(running_sums(*mul_add, zero, weights@, samples, sums));
    }
    value
}

/// `mid` is `src` (rows of `row` values) with its rows resampled.
pub open spec fn resampled_rows<T, M: Fn(T, T, T) -> T>(
    mul_add: M,
    zero: T,
    src: Seq<T>,
    row: int,
    taps: Seq<Taps<T>>,
    mid: Seq<T>,
) -> bool {
    &&& mid.len() == taps.len() * row
    &&& forall|oy: int, j: int|
        0 <= oy < taps.len() && 0 <= j < row ==> gathered(
            mul_add,
            zero,
            taps[oy].weights@,
            strided(src, taps[oy].start * row + j, row, taps[oy].weights@.len()),
            #[trigger] mid[oy * row + j],
        )
}

/// `out` is `mid` (`h` rows of `w` samples of `c` values) with its columns
/// resampled.
pub open spec fn resampled_columns<T, M: Fn(T, T, T) -> T>(
    mul_add: M,
    zero: T,
    mid: Seq<T>,
    h: int,
    w: int,
    c: int,
    taps: Seq<Taps<T>>,
    out: Seq<T>,
) -> bool {
    &&& out.len() == h * (taps.len() * c)
    &&& forall|oy: int, ox: int, ch: int|
        0 <= oy < h && 0 <= ox < taps.len() && 0 <= ch < c ==> gathered(
            mul_add,
            zero,
            taps[ox].weights@,
            strided(mid, oy * (w * c) + taps[ox].start * c + ch, c, taps[ox].weights@.len()),
            #[trigger] out[oy * (taps.len() * c) + (ox * c + ch)],
        )
}

/// `out` is the grid `src` resampled along both axes, rows first.
pub open spec fn resampled<T, M: Fn(T, T, T) -> T>(
    mul_add: M,
    zero: T,
    src: Seq<T>,
    w: int,
    c: int,
    row_taps: Seq<Taps<T>>,
    col_taps: Seq<Taps<T>>,
    out: Seq<T>,
) -> bool {
    exists|mid: Seq<T>| #[trigger]
        resampled_rows(mul_add, zero, src, w * c, row_taps, mid) && resampled_columns(
            mul_add,
            zero,
            mid,
            row_taps.len() as int,
            w,
            c,
            col_taps,
            out,
        )
}

/// Place `a * n + b` with `b` under `n` is in block `a`.
proof fn lemma_in_block(a: int, b: int, blocks: int, n: int)
    requires
        0 <= a < blocks,
        0 <= b < n,
    ensures
        0 <= a * n,
        0 <= a * n + b < a * n + n,
        a * n + n <= blocks * n,
{
    assert(0 <= a * n) by (nonlinear_arith)
        requires
            0 <= a,
            0 <= n,
    ;
    assert(a * n + n <= blocks * n) by (nonlinear_arith)
        requires
            a + 1 <= blocks,
            0 <= n,
    ;
}

/// Resamples the rows of a grid: every output row is gathered out of source
/// rows.
fn resample_rows<T: Copy, M: Fn(T, T, T) -> T>(
    src: &Vec<T>,
    h: usize,
    row: usize,
    taps: &Vec<Taps<T>>,
    zero: T,
    mul_add: &M,
) -> (mid: Vec<T>)
    requires
        h * row <= src@.len(),
        taps_within(taps@, h as int),
        forall|acc: T, weight: T, sample: T| call_requires(*mul_add, (acc, weight, sample)),
    ensures
        resampled_rows(*mul_add, zero, src@, row as int, taps@, mid@),
{
    let mut mid: Vec<T> = Vec::new();
    let mut oy: usize = 0;
    assert(0 * row == 0);
    while oy < taps.len()
        invariant
            oy <= taps@.len(),
            h * row <= src@.len(),
            src@.len() == src.len(),
            taps_within(taps@, h as int),
            forall|acc: T, weight: T, sample: T| call_requires(*mul_add, (acc, weight, sample)),
            resampled_rows(*mul_add, zero, src@, row as int, taps@.take(oy as int), mid@),
        decreases taps.len() - oy,
    {
        let start: usize = taps[oy].start;
        assert(taps@[oy as int].start + taps@[oy as int].weights@.len() <= h);
        let mut j: usize = 0;
        while j < row
            invariant
                oy < taps@.len(),
                j <= row,
                h * row <= src@.len(),
                src@.len() == src.len(),
                start == taps@[oy as int].start,
                start + taps@[oy as int].weights@.len() <= h,
                forall|acc: T, weight: T, sample: T|
                    call_requires(*mul_add, (acc, weight, sample)),
                mid@.len() == oy * row + j,
                forall|v: int, i: int|
                    0 <= v < oy && 0 <= i < row ==> gathered(
                        *mul_add,
                        zero,
                        taps@[v].weights@,
                        strided(
                            src@,
                            taps@[v].start * row + i,
                            row as int,
                            taps@[v].weights@.len(),
                        ),
                        #[trigger] mid@[v * row + i],
                    ),
                forall|i: int|
                    0 <= i < j ==> gathered(
                        *mul_add,
                        zero,
                        taps@[oy as int].weights@,
                        strided(
                            src@,
                            start * row + i,
                            row as int,
                            taps@[oy as int].weights@.len(),
                        ),
                        #[trigger] mid@[oy * row + i],
                    ),
            decreases row - j,
        {
            let ghost before = mid@;
            if taps[oy].weights.len() == 0 {
                mid.push(zero);
                proof {
                    lemma_nothing_gathered(
                        *mul_add,
                        zero,
                        taps@[oy as int].weights@,
                        strided(src@, start * row + j, row as int, 0),
                    );
                }
            } else {
                proof {
                    lemma_in_block(start as int, j as int, h as int, row as int);
                    assert forall|k: int| 0 <= k < taps@[oy as int].weights@.len() implies start
                        * row + j + #[trigger] (k * row) < src@.len() by {
                        lemma_in_block(start + k, j as int, h as int, row as int);
                        assert((start + k) * row == start * row + k * row) by (nonlinear_arith);
                    }
                }
                let value = gather(src, start * row + j, row, &taps[oy].weights, zero, mul_add);
                mid.push(value);
            }
            proof {
                assert forall|v: int, i: int| 0 <= v < oy && 0 <= i < row implies gathered(
                    *mul_add,
                    zero,
                    taps@[v].weights@,
                    strided(src@, taps@[v].start * row + i, row as int, taps@[v].weights@.len()),
                    #[trigger] mid@[v * row + i],
                ) by {
                    lemma_in_block(v, i, oy as int, row as int);
                    assert(mid@[v * row + i] == before[v * row + i]);
                }
                assert(0 <= oy * row) by (nonlinear_arith);
            }
            j = j + 1;
        }
        proof {
            assert((oy + 1) * row == oy * row + row) by (nonlinear_arith);
            let taken = taps@.take(oy + 1);
            assert forall|v: int, i: int| 0 <= v < taken.len() && 0 <= i < row implies gathered(
                *mul_add,
                zero,
                taken[v].weights@,
                strided(src@, taken[v].start * row + i, row as int, taken[v].weights@.len()),
                #[trigger] mid@[v * row + i],
            ) by {
                if v == oy {
                    assert(mid@[oy * row + i] == mid@[v * row + i]);
                }
            }
        }
        oy = oy + 1;
    }
    assert(taps@.take(oy as int) =~= taps@);
    mid
}

/// Resamples the samples of one row, and appends them to `out`.
fn resample_row<T: Copy, M: Fn(T, T, T) -> T>(
    mid: &Vec<T>,
    base: usize,
    w: usize,
    c: usize,
    taps: &Vec<Taps<T>>,
    zero: T,
    mul_add: &M,
    out: &mut Vec<T>,
)
    requires
        base + w * c <= mid@.len(),
        taps_within(taps@, w as int),
        forall|acc: T, weight: T, sample: T| call_requires(*mul_add, (acc, weight, sample)),
    ensures
        final(out)@.len() == old(out)@.len() + taps@.len() * c,
        forall|i: int| 0 <= i < old(out)@.len() ==> #[trigger] final(out)@[i] == old(out)@[i],
        forall|ox: int, ch: int|
            0 <= ox < taps@.len() && 0 <= ch < c ==> gathered(
                *mul_add,
                zero,
                taps@[ox].weights@,
                strided(mid@, base + taps@[ox].start * c + ch, c as int, taps@[ox].weights@.len()),
                #[trigger] final(out)@[old(out)@.len() + (ox * c + ch)],
            ),
{
    let ghost old_out = out@;
    let ghost n = out@.len() as int;
    let mut ox: usize = 0;
    assert(0 * c == 0);
    while ox < taps.len()
        invariant
            ox <= taps@.len(),
            base + w * c <= mid@.len(),
            mid@.len() == mid.len(),
            taps_within(taps@, w as int),
            forall|acc: T, weight: T, sample: T| call_requires(*mul_add, (acc, weight, sample)),
            n == old_out.len(),
            out@.len() == n + ox * c,
            forall|i: int| 0 <= i < n ==> #[trigger] out@[i] == old_out[i],
            forall|u: int, ch: int|
                0 <= u < ox && 0 <= ch < c ==> gathered(
                    *mul_add,
                    zero,
                    taps@[u].weights@,
                    strided(
                        mid@,
                        base + taps@[u].start * c + ch,
                        c as int,
                        taps@[u].weights@.len(),
                    ),
                    #[trigger] out@[n + (u * c + ch)],
                ),
        decreases taps.len() - ox,
    {
        let start: usize = taps[ox].start;
        assert(taps@[ox as int].start + taps@[ox as int].weights@.len() <= w);
        let mut ch: usize = 0;
        while ch < c
            invariant
                ox < taps@.len(),
                ch <= c,
                base + w * c <= mid@.len(),
                mid@.len() == mid.len(),
                start == taps@[ox as int].start,
                start + taps@[ox as int].weights@.len() <= w,
                forall|acc: T, weight: T, sample: T|
                    call_requires(*mul_add, (acc, weight, sample)),
                n == old_out.len(),
                out@.len() == n + ox * c + ch,
                forall|i: int| 0 <= i < n ==> #[trigger] out@[i] == old_out[i],
                forall|u: int, d: int|
                    0 <= u < ox && 0 <= d < c ==> gathered(
                        *mul_add,
                        zero,
                        taps@[u].weights@,
                        strided(
                            mid@,
                            base + taps@[u].start * c + d,
                            c as int,
                            taps@[u].weights@.len(),
                        ),
                        #[trigger] out@[n + (u * c + d)],
                    ),
                forall|d: int|
                    0 <= d < ch ==> gathered(
                        *mul_add,
                        zero,
                        taps@[ox as int].weights@,
                        strided(
                            mid@,
                            base + start * c + d,
                            c as int,
                            taps@[ox as int].weights@.len(),
                        ),
                        #[trigger] out@[n + (ox * c + d)],
                    ),
            decreases c - ch,
        {
            let ghost before = out@;
            if taps[ox].weights.len() == 0 {
                out.push(zero);
                proof {
                    lemma_nothing_gathered(
                        *mul_add,
                        zero,
                        taps@[ox as int].weights@,
                        strided(mid@, base + start * c + ch, c as int, 0),
                    );
                }
            } else {
                proof {
                    lemma_in_block(start as int, ch as int, w as int, c as int);
                    assert forall|k: int| 0 <= k < taps@[ox as int].weights@.len() implies base
                        + start * c + ch + #[trigger] (k * c) < mid@.len() by {
                        lemma_in_block(start + k, ch as int, w as int, c as int);
                        assert((start + k) * c == start * c + k * c) by (nonlinear_arith);
                    }
                }
                let value = gather(
                    mid,
                    base + start * c + ch,
                    c,
                    &taps[ox].weights,
                    zero,
                    mul_add,
                );
                out.push(value);
            }
            proof {
                assert(0 <= ox * c) by (nonlinear_arith);
                assert forall|u: int, d: int| 0 <= u < ox && 0 <= d < c implies gathered(
                    *mul_add,
                    zero,
                    taps@[u].weights@,
                    strided(
                        mid@,
                        base + taps@[u].start * c + d,
                        c as int,
                        taps@[u].weights@.len(),
                    ),
                    #[trigger] out@[n + (u * c + d)],
                ) by {
                    lemma_in_block(u, d, ox as int, c as int);
                    assert(out@[n + (u * c + d)] == before[n + (u * c + d)]);
                }
            }
            ch = ch + 1;
        }
        proof {
            assert((ox + 1) * c == ox * c + c) by (nonlinear_arith);
            assert forall|u: int, d: int| 0 <= u < ox + 1 && 0 <= d < c implies gathered(
                *mul_add,
                zero,
                taps@[u].weights@,
                strided(mid@, base + taps@[u].start * c + d, c as int, taps@[u].weights@.len()),
                #[trigger] out@[n + (u * c + d)],
            ) by {
                if u == ox {
                    assert(out@[n + (ox * c + d)] == out@[n + (u * c + d)]);
                }
            }
        }
        ox = ox + 1;
    }
}

/// Resamples the columns of a grid: every output sample is gathered out of
/// samples of its row.
fn resample_columns<T: Copy, M: Fn(T, T, T) -> T>(
    mid: &Vec<T>,
    h: usize,
    w: usize,
    c: usize,
    taps: &Vec<Taps<T>>,
    zero: T,
    mul_add: &M,
) -> (out: Vec<T>)
    requires
        mid@.len() == h * (w * c),
        w * c <= usize::MAX,
        taps_within(taps@, w as int),
        forall|acc: T, weight: T, sample: T| call_requires(*mul_add, (acc, weight, sample)),
    ensures
        resampled_columns(
            *mul_add,
            zero,
            mid@,
            h as int,
            w as int,
            c as int,
            taps@,
            out@,
        ),
{
    let mut out: Vec<T> = Vec::new();
    let ghost n = taps@.len() * c;
    let mut oy: usize = 0;
    assert(0 <= w * c) by (nonlinear_arith);
    assert(0 <= n) by (nonlinear_arith)
        requires
            n == taps@.len() * c,
    ;
    let row: usize = w * c;
    assert(0 * n == 0);
    while oy < h
        invariant
            oy <= h,
            n == taps@.len() * c,
            0 <= n,
            row == w * c,
            mid@.len() == h * row,
            mid@.len() == mid.len(),
            taps_within(taps@, w as int),
            forall|acc: T, weight: T, sample: T| call_requires(*mul_add, (acc, weight, sample)),
            resampled_columns(
                *mul_add,
                zero,
                mid@,
                oy as int,
                w as int,
                c as int,
                taps@,
                out@,
            ),
        decreases h - oy,
    {
        proof {
            assert(oy * row + row <= h * row) by (nonlinear_arith)
                requires
                    oy + 1 <= h,
            ;
            assert(0 <= oy * row) by (nonlinear_arith);
        }
        let ghost before = out@;
        resample_row(mid, oy * row, w, c, taps, zero, mul_add, &mut out);
        proof {
            assert((oy + 1) * n == oy * n + n) by (nonlinear_arith);
            assert forall|v: int, ox: int, ch: int|
                0 <= v < oy + 1 && 0 <= ox < taps@.len() && 0 <= ch < c implies gathered(
                *mul_add,
                zero,
                taps@[ox].weights@,
                strided(
                    mid@,
                    v * (w * c) + taps@[ox].start * c + ch,
                    c as int,
                    taps@[ox].weights@.len(),
                ),
                #[trigger] out@[v * n + (ox * c + ch)],
            ) by {
                lemma_in_block(ox, ch, taps@.len() as int, c as int);
                if v == oy {
                    assert(out@[before.len() + (ox * c + ch)] == out@[v * n + (ox * c + ch)]);
                } else {
                    lemma_in_block(v, ox * c + ch, oy as int, n);
                    assert(out@[v * n + (ox * c + ch)] == before[v * n + (ox * c + ch)]);
                }
            }
        }
        oy = oy + 1;
    }
    out
}

/// Resamples an `[h, w, c]` grid along both spatial axes, rows first.
pub fn resample_2d<T: Copy, M: Fn(T, T, T) -> T>(
    src: &Vec<T>,
    size: (usize, usize, usize),
    row_taps: &Vec<Taps<T>>,
    col_taps: &Vec<Taps<T>>,
    zero: T,
    mul_add: &M,
) -> (out: Vec<T>)
    requires
        size.1 * size.2 <= usize::MAX,
        size.0 * (size.1 * size.2) <= src@.len(),
        taps_within(row_taps@, size.0 as int),
        taps_within(col_taps@, size.1 as int),
        forall|acc: T, weight: T, sample: T| call_requires(*mul_add, (acc, weight, sample)),
    ensures
        resampled(
            *mul_add,
            zero,
            src@,
            size.1 as int,
            size.2 as int,
            row_taps@,
            col_taps@,
            out@,
        ),
{
    let (h, w, c) = size;
    let mid = resample_rows(src, h, w * c, row_taps, zero, mul_add);
    let out = resample_columns(&mid, row_taps.len(), w, c, col_taps, zero, mul_add);
    proof {
        assert(resampled_rows(*mul_add, zero, src@, w * c, row_taps@, mid@));
    }
    out
}

/// An output sample of the antialiased variant: the source samples `lo` to `hi`
/// around `center` take part, as far as they exist.
#[derive(Debug)]
pub struct Window<T> {
    pub lo: i64,
    pub hi: i64,
    pub center: T,
}

/// The output samples of an axis, and by how much the kernel is stretched.
#[derive(Debug)]
pub struct WindowAxis<T> {
    pub windows: Vec<Window<T>>,
    pub filter_scale: T,
}

/// Every window reaches samples of an axis of `len` samples.
pub open spec fn windows_reach<T>(windows: Seq<Window<T>>, len: int) -> bool {
    forall|i: int|
        0 <= i < windows.len() ==> 0 < len && (#[trigger] windows[i]).lo <= windows[i].hi
            && windows[i].lo < len && 0 <= windows[i].hi
}

/// The first sample of a window that exists.
pub open spec fn first_in<T>(window: Window<T>) -> int {
    if window.lo < 0 {
        0
    } else {
        window.lo as int
    }
}

/// The last sample of a window that exists.
pub open spec fn last_in<T>(window: Window<T>, len: int) -> int {
    if window.hi > len - 1 {
        len - 1
    } else {
        window.hi as int
    }
}

/// `raw` may be the kernel's weights for the samples of a window.
pub open spec fn kernel_weights<T, K: Fn(usize, T, T) -> T>(
    kernel: K,
    window: Window<T>,
    filter_scale: T,
    len: int,
    raw: Seq<T>,
) -> bool {
    &&& raw.len() == last_in(window, len) - first_in(window) + 1
    &&& forall|k: int|
        0 <= k < raw.len() ==> call_ensures(
            kernel,
            ((first_in(window) + k) as usize, window.center, filter_scale),
            #[trigger] raw[k],
        )
}

/// `weights` may be the kernel's weights divided by their total.
pub open spec fn normalized<T, S: Fn(&Vec<T>) -> T, D: Fn(T, T) -> T>(
    total: S,
    divide: D,
    raw: Vec<T>,
    weights: Seq<T>,
) -> bool {
    exists|sum: T| #[trigger]
        call_ensures(total, (&raw,), sum) && weights.len() == raw@.len() && forall|k: int|
            0 <= k < weights.len() ==> call_ensures(
                divide,
                (raw@[k], sum),
                #[trigger] weights[k],
            )
}

/// The taps of a window: the kernel's weights for the samples that exist,
/// divided by their total.
pub open spec fn window_taps<
    T,
    K: Fn(usize, T, T) -> T,
    S: Fn(&Vec<T>) -> T,
    D: Fn(T, T) -> T,
>(
    kernel: K,
    total: S,
    divide: D,
    window: Window<T>,
    filter_scale: T,
    len: int,
    taps: Taps<T>,
) -> bool {
    &&& taps.start == first_in(window)
    &&& exists|raw: Vec<T>| #[trigger]
        kernel_weights(kernel, window, filter_scale, len, raw@) && normalized(
            total,
            divide,
            raw,
            taps.weights@,
        )
}

/// The taps of one window.
fn taps_of_window<T: Copy, K: Fn(usize, T, T) -> T, S: Fn(&Vec<T>) -> T, D: Fn(T, T) -> T>(
    in_len: usize,
    window: &Window<T>,
    filter_scale: T,
    kernel: &K,
    total: &S,
    divide: &D,
) -> (taps: Taps<T>)
    requires
        0 < in_len <= i64::MAX,
        window.lo <= window.hi,
        window.lo < in_len,
        0 <= window.hi,
        forall|i: usize, center: T, scale: T| call_requires(*kernel, (i, center, scale)),
        forall|raw: &Vec<T>| call_requires(*total, (raw,)),
        forall|weight: T, sum: T| call_requires(*divide, (weight, sum)),
    ensures
        window_taps(*kernel, *total, *divide, *window, filter_scale, in_len as int, taps),
        taps.start + taps.weights@.len() <= in_len,
{
    let lo: usize = if window.lo < 0 {
        0
    } else {
        window.lo as usize
    };
    let hi: usize = if window.hi > in_len as i64 - 1 {
        in_len - 1
    } else {
        window.hi as usize
    };
    let mut raw: Vec<T> = Vec::new();
    let mut i: usize = lo;
    while i <= hi
        invariant
            lo <= i <= hi + 1,
            lo == first_in(*window),
            hi == last_in(*window, in_len as int),
            hi < in_len,
            raw@.len() == i - lo,
            forall|i: usize, center: T, scale: T| call_requires(*kernel, (i, center, scale)),
            forall|k: int|
                0 <= k < raw@.len() ==> call_ensures(
                    *kernel,
                    ((first_in(*window) + k) as usize, window.center, filter_scale),
                    #[trigger] raw@[k],
                ),
        decreases hi + 1 - i,
    {
        raw.push(kernel(i, window.center, filter_scale));
        i = i + 1;
    }
    let sum = total(&raw);
    let mut weights: Vec<T> = Vec::new();
    let mut k: usize = 0;
    while k < raw.len()
        invariant
            k <= raw@.len(),
            weights@.len() == k,
            forall|weight: T, sum: T| call_requires(*divide, (weight, sum)),
            forall|j: int|
                0 <= j < k ==> call_ensures(*divide, (raw@[j], sum), #[trigger] weights@[j]),
        decreases raw.len() - k,
    {
        weights.push(divide(raw[k], sum));
        k = k + 1;
    }
    proof {
        assert(call_ensures(*total, (&raw,), sum));
        assert(normalized(*total, *divide, raw, weights@));
        assert(kernel_weights(*kernel, *window, filter_scale, in_len as int, raw@));
    }
    Taps { start: lo, weights }
}

/// The taps of the antialiased variant: one set for each window.
pub fn taps_antialias<T: Copy, K: Fn(usize, T, T) -> T, S: Fn(&Vec<T>) -> T, D: Fn(T, T) -> T>(
    in_len: usize,
    axis: &WindowAxis<T>,
    kernel: &K,
    total: &S,
    divide: &D,
) -> (taps: Vec<Taps<T>>)
    requires
        in_len <= i64::MAX,
        windows_reach(axis.windows@, in_len as int),
        forall|i: usize, center: T, scale: T| call_requires(*kernel, (i, center, scale)),
        forall|raw: &Vec<T>| call_requires(*total, (raw,)),
        forall|weight: T, sum: T| call_requires(*divide, (weight, sum)),
    ensures
        antialias_taps(*kernel, *total, *divide, *axis, in_len as int, taps@),
        taps_within(taps@, in_len as int),
{
    let mut taps: Vec<Taps<T>> = Vec::new();
    let mut i: usize = 0;
    while i < axis.windows.len()
        invariant
            i <= axis.windows@.len(),
            in_len <= i64::MAX,
            windows_reach(axis.windows@, in_len as int),
            forall|i: usize, center: T, scale: T| call_requires(*kernel, (i, center, scale)),
            forall|raw: &Vec<T>| call_requires(*total, (raw,)),
            forall|weight: T, sum: T| call_requires(*divide, (weight, sum)),
            taps@.len() == i,
            forall|j: int|
                0 <= j < i ==> window_taps(
                    *kernel,
                    *total,
                    *divide,
                    axis.windows@[j],
                    axis.filter_scale,
                    in_len as int,
                    #[trigger] taps@[j],
                ),
            taps_within(taps@, in_len as int),
        decreases axis.windows.len() - i,
    {
        assert(axis.windows@[i as int].lo < in_len);
        taps.push(
            taps_of_window(in_len, &axis.windows[i], axis.filter_scale, kernel, total, divide),
        );
        i = i + 1;
    }
    taps
}

/// An output sample of the variant with four taps: it lies `frac` of the way
/// from sample `base` to the next.
#[derive(Debug)]
pub struct CubicPoint<T> {
    pub base: i64,
    pub frac: T,
}

/// There are samples on an axis of `len` samples to take, and every place is far
/// enough from the limits of its type to compute with.
pub open spec fn points_in_range<T>(points: Seq<CubicPoint<T>>, len: int) -> bool {
    forall|i: int|
        0 <= i < points.len() ==> 0 < len && i64::MIN < (#[trigger] points[i]).base <= i64::MAX
            - 2
}

/// The sample that stands for sample `i` on an axis of `len` samples: the
/// nearest one that exists.
pub open spec fn on_border(i: int, len: int) -> int {
    if i < 0 {
        0
    } else if i > len - 1 {
        len - 1
    } else {
        i
    }
}

/// `value` may be the weight that sample `s` gets out of the first `n` of the
/// four taps around a point. A tap outside the axis counts for the border.
pub open spec fn folded<T, K: Fn(i64, T) -> T, A: Fn(T, T) -> T>(
    kernel: K,
    plus: A,
    zero: T,
    point: CubicPoint<T>,
    len: int,
    s: int,
    n: int,
    value: T,
) -> bool
    decreases n,
{
    if n <= 0 {
        value == zero
    } else if on_border(point.base + (n - 2), len) == s {
        exists|partial: T, weight: T|
            folded(kernel, plus, zero, point, len, s, n - 1, partial) && #[trigger] call_ensures(
                kernel,
                ((n - 2) as i64, point.frac),
                weight,
            ) && #[trigger] call_ensures(plus, (partial, weight), value)
    } else {
        folded(kernel, plus, zero, point, len, s, n - 1, value)
    }
}

/// The taps of a point: four of them, folded onto the samples that exist.
pub open spec fn point_taps<T, K: Fn(i64, T) -> T, A: Fn(T, T) -> T>(
    kernel: K,
    plus: A,
    zero: T,
    point: CubicPoint<T>,
    len: int,
    taps: Taps<T>,
) -> bool {
    &&& taps.start == on_border(point.base - 1, len)
    &&& taps.weights@.len() == on_border(point.base + 2, len) - on_border(point.base - 1, len) + 1
    &&& forall|k: int|
        0 <= k < taps.weights@.len() ==> folded(
            kernel,
            plus,
            zero,
            point,
            len,
            taps.start + k,
            4,
            #[trigger] taps.weights@[k],
        )
}

/// The nearest sample to `i` that exists.
fn clamp_index(i: i64, len: usize) -> (index: usize)
    requires
        0 < len <= i64::MAX,
    ensures
        index == on_border(i as int, len as int),
        index < len,
{
    if i < 0 {
        0
    } else if i > len as i64 - 1 {
        len - 1
    } else {
        i as usize
    }
}

/// The taps of one point.
fn taps_of_point<T: Copy, K: Fn(i64, T) -> T, A: Fn(T, T) -> T>(
    in_len: usize,
    point: &CubicPoint<T>,
    zero: T,
    kernel: &K,
    plus: &A,
) -> (taps: Taps<T>)
    requires
        0 < in_len <= i64::MAX,
        i64::MIN < point.base <= i64::MAX - 2,
        forall|k: i64, frac: T| call_requires(*kernel, (k, frac)),
        forall|sum: T, weight: T| call_requires(*plus, (sum, weight)),
    ensures
        point_taps(*kernel, *plus, zero, *point, in_len as int, taps),
        taps.start + taps.weights@.len() <= in_len,
{
    let base: i64 = point.base;
    let lo: usize = clamp_index(base - 1, in_len);
    let hi: usize = clamp_index(base + 2, in_len);
    let mut weights: Vec<T> = Vec::new();
    let mut j: usize = lo;
    while j <= hi
        invariant
            lo <= j <= hi + 1,
            hi < in_len,
            weights@.len() == j - lo,
            forall|i: int| 0 <= i < weights@.len() ==> #[trigger] weights@[i] == zero,
        decreases hi + 1 - j,
    {
        weights.push(zero);
        j = j + 1;
    }
    let mut k: i64 = -1;
    while k <= 2
        invariant
            -1 <= k <= 3,
            base == point.base,
            i64::MIN < base <= i64::MAX - 2,
            0 < in_len <= i64::MAX,
            lo == on_border(base - 1, in_len as int),
            hi == on_border(base + 2, in_len as int),
            lo <= hi < in_len,
            weights@.len() == hi - lo + 1,
            forall|k: i64, frac: T| call_requires(*kernel, (k, frac)),
            forall|sum: T, weight: T| call_requires(*plus, (sum, weight)),
            forall|i: int|
                0 <= i < weights@.len() ==> folded(
                    *kernel,
                    *plus,
                    zero,
                    *point,
                    in_len as int,
                    lo + i,
                    k + 1,
                    #[trigger] weights@[i],
                ),
        decreases 3 - k,
    {
        let weight = kernel(k, point.frac);
        let idx: usize = clamp_index(base + k, in_len);
        let ghost before = weights@;
        let sum = plus(weights[idx - lo], weight);
        weights.set(idx - lo, sum);
        proof {
            assert forall|i: int| 0 <= i < weights@.len() implies folded(
                *kernel,
                *plus,
                zero,
                *point,
                in_len as int,
                lo + i,
                k + 2,
                #[trigger] weights@[i],
            ) by {
                assert(folded(
                    *kernel,
                    *plus,
                    zero,
                    *point,
                    in_len as int,
                    lo + i,
                    k + 1,
                    before[i],
                ));
                if i == idx - lo {
                    assert(call_ensures(*kernel, (k, point.frac), weight));
                    assert(call_ensures(*plus, (before[i], weight), weights@[i]));
                }
            }
        }
        k = k + 1;
    }
    Taps { start: lo, weights }
}

/// The taps of the variant with four taps: one set for each point.
pub fn taps_torch_no_aa<T: Copy, K: Fn(i64, T) -> T, A: Fn(T, T) -> T>(
    in_len: usize,
    points: &Vec<CubicPoint<T>>,
    zero: T,
    kernel: &K,
    plus: &A,
) -> (taps: Vec<Taps<T>>)
    requires
        in_len <= i64::MAX,
        points_in_range(points@, in_len as int),
        forall|k: i64, frac: T| call_requires(*kernel, (k, frac)),
        forall|sum: T, weight: T| call_requires(*plus, (sum, weight)),
    ensures
        four_taps(*kernel, *plus, zero, points@, in_len as int, taps@),
        taps_within(taps@, in_len as int),
{
    let mut taps: Vec<Taps<T>> = Vec::new();
    let mut i: usize = 0;
    while i < points.len()
        invariant
            i <= points@.len(),
            in_len <= i64::MAX,
            points_in_range(points@, in_len as int),
            forall|k: i64, frac: T| call_requires(*kernel, (k, frac)),
            forall|sum: T, weight: T| call_requires(*plus, (sum, weight)),
            taps@.len() == i,
            forall|j: int|
                0 <= j < i ==> point_taps(
                    *kernel,
                    *plus,
                    zero,
                    points@[j],
                    in_len as int,
                    #[trigger] taps@[j],
                ),
            taps_within(taps@, in_len as int),
        decreases points.len() - i,
    {
        assert(points@[i as int].base > i64::MIN);
        taps.push(taps_of_point(in_len, &points[i], zero, kernel, plus));
        i = i + 1;
    }
    taps
}

/// `taps` may be the taps of the antialiased variant for the windows of an
/// axis of `len` samples.
pub open spec fn antialias_taps<
    T,
    K: Fn(usize, T, T) -> T,
    S: Fn(&Vec<T>) -> T,
    D: Fn(T, T) -> T,
>(kernel: K, total: S, divide: D, axis: WindowAxis<T>, len: int, taps: Seq<Taps<T>>) -> bool {
    &&& taps.len() == axis.windows@.len()
    &&& forall|i: int|
        0 <= i < taps.len() ==> window_taps(
            kernel,
            total,
            divide,
            axis.windows@[i],
            axis.filter_scale,
            len,
            #[trigger] taps[i],
        )
}

/// `taps` may be the taps of the variant with four taps for the points of an
/// axis of `len` samples.
pub open spec fn four_taps<T, K: Fn(i64, T) -> T, A: Fn(T, T) -> T>(
    kernel: K,
    plus: A,
    zero: T,
    points: Seq<CubicPoint<T>>,
    len: int,
    taps: Seq<Taps<T>>,
) -> bool {
    &&& taps.len() == points.len()
    &&& forall|i: int|
        0 <= i < taps.len() ==> point_taps(kernel, plus, zero, points[i], len, #[trigger] taps[i])
}

/// Resizes an `[h, w, c]` grid with the antialiased variant, to one output row
/// for each window of `rows` and one output column for each of `columns`.
pub fn resize_image_bicubic_aa<
    T: Copy,
    K: Fn(usize, T, T) -> T,
    S: Fn(&Vec<T>) -> T,
    D: Fn(T, T) -> T,
    M: Fn(T, T, T) -> T,
>(
    src: &Vec<T>,
    size: (usize, usize, usize),
    rows: &WindowAxis<T>,
    columns: &WindowAxis<T>,
    zero: T,
    kernel: &K,
    total: &S,
    divide: &D,
    mul_add: &M,
) -> (out: Vec<T>)
    requires
        size.0 <= i64::MAX,
        size.1 <= i64::MAX,
        size.1 * size.2 <= usize::MAX,
        size.0 * (size.1 * size.2) <= src@.len(),
        windows_reach(rows.windows@, size.0 as int),
        windows_reach(columns.windows@, size.1 as int),
        forall|i: usize, center: T, scale: T| call_requires(*kernel, (i, center, scale)),
        forall|raw: &Vec<T>| call_requires(*total, (raw,)),
        forall|weight: T, sum: T| call_requires(*divide, (weight, sum)),
        forall|acc: T, weight: T, sample: T| call_requires(*mul_add, (acc, weight, sample)),
    ensures
        out@.len() == rows.windows@.len() * (columns.windows@.len() * size.2),
        exists|row_taps: Seq<Taps<T>>, col_taps: Seq<Taps<T>>|
            antialias_taps(*kernel, *total, *divide, *rows, size.0 as int, row_taps)
                && antialias_taps(*kernel, *total, *divide, *columns, size.1 as int, col_taps)
                && #[trigger] resampled(
                *mul_add,
                zero,
                src@,
                size.1 as int,
                size.2 as int,
                row_taps,
                col_taps,
                out@,
            ),
{
    let row_taps = taps_antialias(size.0, rows, kernel, total, divide);
    let col_taps = taps_antialias(size.1, columns, kernel, total, divide);
    let out = resample_2d(src, size, &row_taps, &col_taps, zero, mul_add);
    proof {
        assert(antialias_taps(*kernel, *total, *divide, *rows, size.0 as int, row_taps@));
        assert(antialias_taps(*kernel, *total, *divide, *columns, size.1 as int, col_taps@));
    }
    out
}

/// Resizes an `[h, w, c]` grid with the variant of four taps, to one output row
/// for each of `rows` and one output column for each of `columns`.
pub fn resize_grid_bicubic_torch<
    T: Copy,
    K: Fn(i64, T) -> T,
    A: Fn(T, T) -> T,
    M: Fn(T, T, T) -> T,
>(
    src: &Vec<T>,
    size: (usize, usize, usize),
    rows: &Vec<CubicPoint<T>>,
    columns: &Vec<CubicPoint<T>>,
    zero: T,
    kernel: &K,
    plus: &A,
    mul_add: &M,
) -> (out: Vec<T>)
    requires
        size.0 <= i64::MAX,
        size.1 <= i64::MAX,
        size.1 * size.2 <= usize::MAX,
        size.0 * (size.1 * size.2) <= src@.len(),
        points_in_range(rows@, size.0 as int),
        points_in_range(columns@, size.1 as int),
        forall|k: i64, frac: T| call_requires(*kernel, (k, frac)),
        forall|sum: T, weight: T| call_requires(*plus, (sum, weight)),
        forall|acc: T, weight: T, sample: T| call_requires(*mul_add, (acc, weight, sample)),
    ensures
        out@.len() == rows@.len() * (columns@.len() * size.2),
        exists|row_taps: Seq<Taps<T>>, col_taps: Seq<Taps<T>>|
            four_taps(*kernel, *plus, zero, rows@, size.0 as int, row_taps) && four_taps(
                *kernel,
                *plus,
                zero,
                columns@,
                size.1 as int,
                col_taps,
            ) && #[trigger] resampled(
                *mul_add,
                zero,
                src@,
                size.1 as int,
                size.2 as int,
                row_taps,
                col_taps,
                out@,
            ),
{
    let row_taps = taps_torch_no_aa(size.0, rows, zero, kernel, plus);
    let col_taps = taps_torch_no_aa(size.1, columns, zero, kernel, plus);
    let out = resample_2d(src, size, &row_taps, &col_taps, zero, mul_add);
    proof {
        assert(four_taps(*kernel, *plus, zero, rows@, size.0 as int, row_taps@));
        assert(four_taps(*kernel, *plus, zero, columns@, size.1 as int, col_taps@));
    }
    out
}

/// The taps of a point whose four taps all exist: four weights, each of them
/// the kernel's own added to nothing.
pub proof fn law_inner_point_has_four_taps<T, K: Fn(i64, T) -> T, A: Fn(T, T) -> T>(
    kernel: K,
    plus: A,
    zero: T,
    point: CubicPoint<T>,
    len: int,
    taps: Taps<T>,
    k: int,
)
    requires
        1 <= point.base,
        point.base + 2 < len,
        0 <= k < 4,
        point_taps(kernel, plus, zero, point, len, taps),
    ensures
        taps.start == point.base - 1,
        taps.weights@.len() == 4,
        exists|weight: T| #[trigger]
            call_ensures(kernel, ((k - 1) as i64, point.frac), weight) && call_ensures(
                plus,
                (zero, weight),
                taps.weights@[k],
            ),
{
    reveal_with_fuel(folded, 5);
    let w = taps.weights@[k];
    assert(folded(kernel, plus, zero, point, len, taps.start + k, 4, w));
}

/// The taps of a point that none of the samples around it reach: all of the
/// weight is on the border.
pub proof fn law_outer_point_has_one_tap<T, K: Fn(i64, T) -> T, A: Fn(T, T) -> T>(
    kernel: K,
    plus: A,
    zero: T,
    point: CubicPoint<T>,
    len: int,
    taps: Taps<T>,
)
    requires
        0 < len,
        point.base + 2 <= 0 || len <= point.base,
        point_taps(kernel, plus, zero, point, len, taps),
    ensures
        taps.weights@.len() == 1,
        taps.start == if point.base < 0 {
            0int
        } else {
            len - 1
        },
{
}

} // verus!
