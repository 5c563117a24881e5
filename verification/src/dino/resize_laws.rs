//! What a resampled grid is, sample by sample, where the operations handed in
//! are functions.

use vstd::prelude::*;

use crate::dino::resize::{
    antialias_taps, folded, four_taps, gathered, kernel_weights, normalized, on_border, point_taps,
    resampled, resampled_columns, resampled_rows, running_sums, strided, window_taps, CubicPoint,
    Taps, Window, WindowAxis,
};

verus! {

/// Gathering weighted samples folds them up from the left, in their order.
pub proof fn law_gathering_is_a_fold<T, M: Fn(T, T, T) -> T>(
    mul_add: M,
    m: spec_fn(T, T, T) -> T,
    zero: T,
    weights: Seq<T>,
    samples: Seq<T>,
    value: T,
)
    requires
        forall|acc: T, weight: T, sample: T, next: T| #[trigger]
            call_ensures(mul_add, (acc, weight, sample), next) ==> next == m(acc, weight, sample),
        samples.len() == weights.len(),
        gathered(mul_add, zero, weights, samples, value),
    ensures
        value == Seq::new(weights.len(), |k: int| (weights[k], samples[k])).fold_left(
            zero,
            |acc: T, pair: (T, T)| m(acc, pair.0, pair.1),
        ),
{
    let sums = choose|sums: Seq<T>| #[trigger]
        running_sums(mul_add, zero, weights, samples, sums) && sums.last() == value;
    let pairs = Seq::new(weights.len(), |k: int| (weights[k], samples[k]));
    lemma_running(mul_add, m, zero, weights, samples, sums, weights.len() as int);
    assert(pairs.take(weights.len() as int) =~= pairs);
}

proof fn lemma_running<T, M: Fn(T, T, T) -> T>(
    mul_add: M,
    m: spec_fn(T, T, T) -> T,
    zero: T,
    weights: Seq<T>,
    samples: Seq<T>,
    sums: Seq<T>,
    n: int,
)
    requires
        forall|acc: T, weight: T, sample: T, next: T| #[trigger]
            call_ensures(mul_add, (acc, weight, sample), next) ==> next == m(acc, weight, sample),
        samples.len() == weights.len(),
        running_sums(mul_add, zero, weights, samples, sums),
        0 <= n <= weights.len(),
    ensures
        sums[n] == Seq::new(weights.len(), |k: int| (weights[k], samples[k])).take(n).fold_left(
            zero,
            |acc: T, pair: (T, T)| m(acc, pair.0, pair.1),
        ),
    decreases n,
{
    let pairs = Seq::new(weights.len(), |k: int| (weights[k], samples[k]));
    if n > 0 {
        lemma_running(mul_add, m, zero, weights, samples, sums, n - 1);
        assert(pairs.take(n).drop_last() =~= pairs.take(n - 1));
        assert(pairs.take(n).last() == (weights[n - 1], samples[n - 1]));
        assert(call_ensures(
            mul_add,
            (sums[n - 1], weights[n - 1], samples[n - 1]),
            sums[n - 1 + 1],
        ));
    } else {
        assert(pairs.take(0) =~= Seq::<(T, T)>::empty());
    }
}

proof fn lemma_place(a: int, b: int, blocks: int, n: int)
    requires
        0 <= a < blocks,
        0 <= b < n,
    ensures
        0 <= a * n,
        0 <= a * n + b < blocks * n,
{
    assert(0 <= a * n) by (nonlinear_arith)
        requires
            0 <= a,
            0 <= n,
    ;
    assert(a * n + n <= blocks * n) by (nonlinear_arith)
        requires
            a + 1 <= blocks,
            0 <= n,
    ;
}

/// A sample of a resampled grid: first the rows that its row's taps name are
/// added up, each with its weight, in every column that its column's taps name,
/// and then those columns. All of it stays in the sample's channel.
pub proof fn law_resampled_sample<T, M: Fn(T, T, T) -> T>(
    mul_add: M,
    m: spec_fn(T, T, T) -> T,
    zero: T,
    src: Seq<T>,
    w: int,
    c: int,
    row_taps: Seq<Taps<T>>,
    col_taps: Seq<Taps<T>>,
    out: Seq<T>,
    oy: int,
    ox: int,
    ch: int,
)
    requires
        forall|acc: T, weight: T, sample: T, next: T| #[trigger]
            call_ensures(mul_add, (acc, weight, sample), next) ==> next == m(acc, weight, sample),
        resampled(mul_add, zero, src, w, c, row_taps, col_taps, out),
        0 <= oy < row_taps.len(),
        0 <= ox < col_taps.len(),
        0 <= ch < c,
        0 <= w,
        col_taps[ox].start + col_taps[ox].weights@.len() <= w,
    ensures
        out.len() == row_taps.len() * (col_taps.len() * c),
        out[oy * (col_taps.len() * c) + (ox * c + ch)] == Seq::new(
            col_taps[ox].weights@.len(),
            |k: int|
                (
                    col_taps[ox].weights@[k],
                    Seq::new(
                        row_taps[oy].weights@.len(),
                        |j: int|
                            (
                                row_taps[oy].weights@[j],
                                src[(row_taps[oy].start + j) * (w * c) + ((col_taps[ox].start + k)
                                    * c + ch)],
                            ),
                    ).fold_left(zero, |acc: T, pair: (T, T)| m(acc, pair.0, pair.1)),
                ),
        ).fold_left(zero, |acc: T, pair: (T, T)| m(acc, pair.0, pair.1)),
{
    let mid = choose|mid: Seq<T>| #[trigger]
        resampled_rows(mul_add, zero, src, w * c, row_taps, mid) && resampled_columns(
            mul_add,
            zero,
            mid,
            row_taps.len() as int,
            w,
            c,
            col_taps,
            out,
        );
    let row = w * c;
    let cw = col_taps[ox].weights@;
    let cs = col_taps[ox].start as int;
    let rw = row_taps[oy].weights@;
    let rs = row_taps[oy].start as int;
    let step = |acc: T, pair: (T, T)| m(acc, pair.0, pair.1);
    let value = out[oy * (col_taps.len() * c) + (ox * c + ch)];
    let samples = strided(mid, oy * row + cs * c + ch, c, cw.len());
    assert(gathered(mul_add, zero, cw, samples, value));
    law_gathering_is_a_fold(mul_add, m, zero, cw, samples, value);
    let wanted = Seq::new(
        cw.len(),
        |k: int|
            (
                cw[k],
                Seq::new(
                    rw.len(),
                    |j: int| (rw[j], src[(rs + j) * row + ((cs + k) * c + ch)]),
                ).fold_left(zero, step),
            ),
    );
    assert forall|k: int| 0 <= k < cw.len() implies wanted[k] == (cw[k], samples[k]) by {
        let x = cs + k;
        lemma_place(x, ch, w, c);
        assert((cs + k) * c == cs * c + k * c) by (nonlinear_arith);
        let place = x * c + ch;
        assert(samples[k] == mid[oy * row + place]);
        let column = strided(src, rs * row + place, row, rw.len());
        assert(gathered(mul_add, zero, rw, column, mid[oy * row + place]));
        law_gathering_is_a_fold(mul_add, m, zero, rw, column, mid[oy * row + place]);
        let pairs = Seq::new(rw.len(), |j: int| (rw[j], column[j]));
        let direct = Seq::new(rw.len(), |j: int| (rw[j], src[(rs + j) * row + (x * c + ch)]));
        assert forall|j: int| 0 <= j < rw.len() implies pairs[j] == direct[j] by {
            assert((rs + j) * row == rs * row + j * row) by (nonlinear_arith);
        }
        assert(pairs =~= direct);
    }
    assert(wanted =~= Seq::new(cw.len(), |k: int| (cw[k], samples[k])));
}

/// The taps of the antialiased variant: the samples of the window that exist,
/// from the first on, each with its weight divided by the total of the weights.
pub proof fn law_taps_of_a_window<
    T,
    K: Fn(usize, T, T) -> T,
    S: Fn(&Vec<T>) -> T,
    D: Fn(T, T) -> T,
>(
    kernel: K,
    weight_of: spec_fn(usize, T, T) -> T,
    total: S,
    total_of: spec_fn(Seq<T>) -> T,
    divide: D,
    quotient_of: spec_fn(T, T) -> T,
    window: Window<T>,
    filter_scale: T,
    len: int,
    taps: Taps<T>,
    k: int,
)
    requires
        forall|i: usize, center: T, scale: T, weight: T| #[trigger]
            call_ensures(kernel, (i, center, scale), weight) ==> weight == weight_of(
                i,
                center,
                scale,
            ),
        forall|raw: Vec<T>, sum: T| #[trigger]
            call_ensures(total, (&raw,), sum) ==> sum == total_of(raw@),
        forall|weight: T, sum: T, out: T| #[trigger]
            call_ensures(divide, (weight, sum), out) ==> out == quotient_of(weight, sum),
        window_taps(kernel, total, divide, window, filter_scale, len, taps),
        window.lo <= window.hi,
        window.lo < len,
        0 <= window.hi,
        0 < len <= usize::MAX,
        0 <= k < taps.weights@.len(),
    ensures
        taps.start == if window.lo < 0 {
            0
        } else {
            window.lo as int
        },
        taps.start + taps.weights@.len() == if window.hi < len {
            window.hi + 1
        } else {
            len
        },
        taps.weights@[k] == quotient_of(
            weight_of((taps.start + k) as usize, window.center, filter_scale),
            total_of(
                Seq::new(
                    taps.weights@.len(),
                    |i: int| weight_of((taps.start + i) as usize, window.center, filter_scale),
                ),
            ),
        ),
{
    let raw = choose|raw: Vec<T>| #[trigger]
        kernel_weights(kernel, window, filter_scale, len, raw@) && normalized(
            total,
            divide,
            raw,
            taps.weights@,
        );
    let sum = choose|sum: T| #[trigger]
        call_ensures(total, (&raw,), sum) && taps.weights@.len() == raw@.len() && forall|i: int|
            0 <= i < taps.weights@.len() ==> call_ensures(
                divide,
                (raw@[i], sum),
                #[trigger] taps.weights@[i],
            );
    let wanted = Seq::new(
        taps.weights@.len(),
        |i: int| weight_of((taps.start + i) as usize, window.center, filter_scale),
    );
    assert forall|i: int| 0 <= i < raw@.len() implies raw@[i] == wanted[i] by {
        assert(call_ensures(
            kernel,
            ((taps.start + i) as usize, window.center, filter_scale),
            raw@[i],
        ));
    }
    assert(raw@ =~= wanted);
    assert(call_ensures(divide, (raw@[k], sum), taps.weights@[k]));
}

/// The taps of the variant with four taps: the samples from one before the
/// point's base to two after it, those that do not exist replaced by the nearest
/// that does. A sample's weight is the sum, in order, of the weights of those of
/// the four that it stands for.
pub proof fn law_taps_of_a_point<T, K: Fn(i64, T) -> T, A: Fn(T, T) -> T>(
    kernel: K,
    weight_of: spec_fn(i64, T) -> T,
    plus: A,
    sum_of: spec_fn(T, T) -> T,
    zero: T,
    point: CubicPoint<T>,
    len: int,
    taps: Taps<T>,
    k: int,
)
    requires
        forall|i: i64, frac: T, weight: T| #[trigger]
            call_ensures(kernel, (i, frac), weight) ==> weight == weight_of(i, frac),
        forall|sum: T, weight: T, next: T| #[trigger]
            call_ensures(plus, (sum, weight), next) ==> next == sum_of(sum, weight),
        point_taps(kernel, plus, zero, point, len, taps),
        0 < len,
        0 <= k < taps.weights@.len(),
    ensures
        ({
            let base = point.base as int;
            let nearest = |i: int|
                if i < 0 {
                    0
                } else if i < len {
                    i
                } else {
                    len - 1
                };
            let s = taps.start + k;
            let with = |sum: T, i: int|
                if nearest(base + i) == s {
                    sum_of(sum, weight_of(i as i64, point.frac))
                } else {
                    sum
                };
            &&& taps.start == nearest(base - 1)
            &&& taps.start + taps.weights@.len() == nearest(base + 2) + 1
            &&& taps.weights@[k] == with(with(with(with(zero, -1), 0), 1), 2)
        }),
{
    let s = taps.start + k;
    let v4 = taps.weights@[k];
    assert(folded(kernel, plus, zero, point, len, s, 4, v4));
    let v3 = lemma_unfolded(kernel, weight_of, plus, sum_of, zero, point, len, s, 4, v4);
    let v2 = lemma_unfolded(kernel, weight_of, plus, sum_of, zero, point, len, s, 3, v3);
    let v1 = lemma_unfolded(kernel, weight_of, plus, sum_of, zero, point, len, s, 2, v2);
    let v0 = lemma_unfolded(kernel, weight_of, plus, sum_of, zero, point, len, s, 1, v1);
    assert(folded(kernel, plus, zero, point, len, s, 0, v0));
    assert(v0 == zero);
}

proof fn lemma_unfolded<T, K: Fn(i64, T) -> T, A: Fn(T, T) -> T>(
    kernel: K,
    weight_of: spec_fn(i64, T) -> T,
    plus: A,
    sum_of: spec_fn(T, T) -> T,
    zero: T,
    point: CubicPoint<T>,
    len: int,
    s: int,
    n: int,
    value: T,
) -> (partial: T)
    requires
        forall|i: i64, frac: T, weight: T| #[trigger]
            call_ensures(kernel, (i, frac), weight) ==> weight == weight_of(i, frac),
        forall|sum: T, weight: T, next: T| #[trigger]
            call_ensures(plus, (sum, weight), next) ==> next == sum_of(sum, weight),
        1 <= n <= 4,
        folded(kernel, plus, zero, point, len, s, n, value),
    ensures
        folded(kernel, plus, zero, point, len, s, n - 1, partial),
        value == if on_border(point.base + (n - 2), len) == s {
            sum_of(partial, weight_of((n - 2) as i64, point.frac))
        } else {
            partial
        },
{
    if on_border(point.base + (n - 2), len) == s {
        let (partial, weight) = choose|partial: T, weight: T|
            folded(kernel, plus, zero, point, len, s, n - 1, partial) && #[trigger] call_ensures(
                kernel,
                ((n - 2) as i64, point.frac),
                weight,
            ) && #[trigger] call_ensures(plus, (partial, weight), value);
        partial
    } else {
        value
    }
}

/// The taps of an axis go with its windows one by one, in their order, all with
/// the axis' own stretch.
pub proof fn law_taps_go_with_windows<
    T,
    K: Fn(usize, T, T) -> T,
    S: Fn(&Vec<T>) -> T,
    D: Fn(T, T) -> T,
>(kernel: K, total: S, divide: D, axis: WindowAxis<T>, len: int, taps: Seq<Taps<T>>, i: int)
    requires
        antialias_taps(kernel, total, divide, axis, len, taps),
        0 <= i < axis.windows@.len(),
    ensures
        taps.len() == axis.windows@.len(),
        window_taps(kernel, total, divide, axis.windows@[i], axis.filter_scale, len, taps[i]),
{
}

/// The taps of an axis go with its points one by one, in their order.
pub proof fn law_taps_go_with_points<T, K: Fn(i64, T) -> T, A: Fn(T, T) -> T>(
    kernel: K,
    plus: A,
    zero: T,
    points: Seq<CubicPoint<T>>,
    len: int,
    taps: Seq<Taps<T>>,
    i: int,
)
    requires
        four_taps(kernel, plus, zero, points, len, taps),
        0 <= i < points.len(),
    ensures
        taps.len() == points.len(),
        point_taps(kernel, plus, zero, points[i], len, taps[i]),
{
}

} // verus!
