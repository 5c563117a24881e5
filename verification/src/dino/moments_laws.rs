//! What the means and the covariance of many rows are made of: every row, once,
//! in order.

use vstd::prelude::*;

use crate::dino::chunks::{chunk_at, chunk_count};
use crate::dino::moments::{
    added_up, chunk_rows, column_entries, covariance_outcome, entries, mean_of, product_of,
    products_of, tallied, tally,
};
use crate::dino::pca::COV_CHUNK_ROWS;

verus! {

/// Adding samples one after the other folds them up from the left, for an
/// addition that is a function.
pub proof fn law_tally_is_a_fold<T, U, A: Fn(U, T) -> U>(
    plus: A,
    f: spec_fn(U, T) -> U,
    zero: U,
    samples: Seq<T>,
    total: U,
)
    requires
        forall|sum: U, sample: T, next: U| #[trigger]
            call_ensures(plus, (sum, sample), next) ==> next == f(sum, sample),
        tallied(plus, zero, samples, total),
    ensures
        total == samples.fold_left(zero, f),
{
    let sums = choose|sums: Seq<U>| #[trigger]
        tally(plus, zero, samples, sums) && sums.last() == total;
    lemma_running_sum(plus, f, zero, samples, sums, samples.len() as int);
    assert(samples.take(samples.len() as int) =~= samples);
}

proof fn lemma_running_sum<T, U, A: Fn(U, T) -> U>(
    plus: A,
    f: spec_fn(U, T) -> U,
    zero: U,
    samples: Seq<T>,
    sums: Seq<U>,
    n: int,
)
    requires
        forall|sum: U, sample: T, next: U| #[trigger]
            call_ensures(plus, (sum, sample), next) ==> next == f(sum, sample),
        tally(plus, zero, samples, sums),
        0 <= n <= samples.len(),
    ensures
        sums[n] == samples.take(n).fold_left(zero, f),
    decreases n,
{
    if n > 0 {
        lemma_running_sum(plus, f, zero, samples, sums, n - 1);
        assert(samples.take(n).drop_last() =~= samples.take(n - 1));
        assert(samples.take(n).last() == samples[n - 1]);
        assert(call_ensures(plus, (sums[n - 1], samples[n - 1]), sums[n - 1 + 1]));
    } else {
        assert(samples.take(0) =~= Seq::<T>::empty());
    }
}

/// The mean of a column is the sum of its entries, row by row, divided by the
/// number of rows.
pub proof fn law_mean_of_a_column<T, U, A: Fn(U, T) -> U, D: Fn(U, usize) -> U>(
    plus: A,
    f: spec_fn(U, T) -> U,
    divide: D,
    g: spec_fn(U, usize) -> U,
    zero: U,
    rows: Seq<T>,
    dim: int,
    n: usize,
    c: int,
    mean: U,
)
    requires
        forall|sum: U, sample: T, next: U| #[trigger]
            call_ensures(plus, (sum, sample), next) ==> next == f(sum, sample),
        forall|sum: U, count: usize, quotient: U| #[trigger]
            call_ensures(divide, (sum, count), quotient) ==> quotient == g(sum, count),
        mean_of(plus, divide, zero, column_entries(rows, dim, n as nat, c), n, mean),
    ensures
        mean == g(Seq::new(n as nat, |r: int| rows[r * dim + c]).fold_left(zero, f), n),
{
    let column = column_entries(rows, dim, n as nat, c);
    let total = choose|total: U| #[trigger]
        tallied(plus, zero, column, total) && call_ensures(divide, (total, n), mean);
    law_tally_is_a_fold(plus, f, zero, column, total);
    assert(column =~= Seq::new(n as nat, |r: int| rows[r * dim + c]));
}

/// The rows that are taken together: chunk `k` holds the rows from row
/// `k * 16384` on, 16384 of them or as many as are left.
pub proof fn law_rows_of_a_chunk<T>(rows: Seq<T>, dim: int, n: int, k: int)
    requires
        0 <= dim,
        0 <= n <= usize::MAX,
        rows.len() == n * dim,
        0 <= k < chunk_count(n, COV_CHUNK_ROWS as int),
    ensures
        0 <= k * 16384 < n,
        chunk_rows(rows, dim, chunk_at(n, COV_CHUNK_ROWS as int, k)) == rows.subrange(
            k * 16384 * dim,
            (if (k + 1) * 16384 < n {
                (k + 1) * 16384
            } else {
                n
            }) * dim,
        ),
{
    let size = COV_CHUNK_ROWS as int;
    vstd::arithmetic::div_mod::lemma_fundamental_div_mod(n + size - 1, size);
    let chunk = chunk_at(n, size, k);
    let end = if (k + 1) * 16384 < n {
        (k + 1) * 16384
    } else {
        n
    };
    assert(chunk.start == k * 16384);
    assert(chunk.start + chunk.len == end);
    let start = chunk.start as int;
    let len = chunk.len as int;
    assert(start * dim + len * dim == (start + len) * dim) by (nonlinear_arith);
}

/// Every row is in the chunk that its number falls into, at its place in it.
pub proof fn law_row_is_in_its_chunk<T>(rows: Seq<T>, dim: int, n: int, r: int, c: int)
    requires
        0 <= c < dim,
        0 <= r < n <= usize::MAX,
        rows.len() == n * dim,
    ensures
        0 <= r / 16384 < chunk_count(n, COV_CHUNK_ROWS as int),
        ({
            let k = r / 16384;
            let input = chunk_rows(rows, dim, chunk_at(n, COV_CHUNK_ROWS as int, k));
            &&& 0 <= (r - k * 16384) * dim + c < input.len()
            &&& input[(r - k * 16384) * dim + c] == rows[r * dim + c]
        }),
{
    let k = r / 16384;
    vstd::arithmetic::div_mod::lemma_fundamental_div_mod(n + 16383, 16384);
    assert(chunk_count(n, COV_CHUNK_ROWS as int) == (n + 16383) / 16384);
    assert(0 <= k < chunk_count(n, COV_CHUNK_ROWS as int));
    law_rows_of_a_chunk(rows, dim, n, k);
    let end = if (k + 1) * 16384 < n {
        (k + 1) * 16384
    } else {
        n
    };
    let start = k * 16384;
    assert(start <= r < end);
    assert(0 <= (r - start) * dim && (r - start) * dim + dim <= (end - start) * dim)
        by (nonlinear_arith)
        requires
            start <= r < end,
            0 < dim,
    ;
    assert((end - start) * dim == end * dim - start * dim) by (nonlinear_arith);
    assert((r - start) * dim == r * dim - start * dim) by (nonlinear_arith);
    assert(end * dim <= n * dim && 0 <= start * dim) by (nonlinear_arith)
        requires
            end <= n,
            0 <= start,
            0 < dim,
    ;
}

/// The chunks, one after the other, are all the rows.
pub proof fn law_chunks_are_the_rows<T>(rows: Seq<T>, dim: int, n: int)
    requires
        0 <= dim,
        0 <= n <= usize::MAX,
        rows.len() == n * dim,
    ensures
        Seq::new(
            chunk_count(n, COV_CHUNK_ROWS as int) as nat,
            |k: int| chunk_rows(rows, dim, chunk_at(n, COV_CHUNK_ROWS as int, k)),
        ).flatten() == rows,
{
    let m = chunk_count(n, COV_CHUNK_ROWS as int);
    let inputs = Seq::new(
        m as nat,
        |k: int| chunk_rows(rows, dim, chunk_at(n, COV_CHUNK_ROWS as int, k)),
    );
    lemma_first_chunks(rows, dim, n, inputs, m);
    assert(inputs.take(m) =~= inputs);
    inputs.lemma_flatten_and_flatten_alt_are_equivalent();
    assert(m == (n + 16383) / 16384);
    assert(m * 16384 >= n);
    assert(rows.subrange(0, n * dim) =~= rows);
}

proof fn lemma_first_chunks<T>(rows: Seq<T>, dim: int, n: int, inputs: Seq<Seq<T>>, m: int)
    requires
        0 <= dim,
        0 <= n <= usize::MAX,
        rows.len() == n * dim,
        inputs == Seq::new(
            chunk_count(n, COV_CHUNK_ROWS as int) as nat,
            |k: int| chunk_rows(rows, dim, chunk_at(n, COV_CHUNK_ROWS as int, k)),
        ),
        0 <= m <= chunk_count(n, COV_CHUNK_ROWS as int),
    ensures
        inputs.take(m).flatten_alt() == rows.subrange(
            0,
            (if m * 16384 < n {
                m * 16384
            } else {
                n
            }) * dim,
        ),
    decreases m,
{
    if m == 0 {
        assert(inputs.take(0) =~= Seq::<Seq<T>>::empty());
        assert(0 * dim == 0);
        if n == 0 {
            assert(n * dim == 0);
        }
        assert(rows.subrange(0, 0) =~= Seq::<T>::empty());
    } else {
        lemma_first_chunks(rows, dim, n, inputs, m - 1);
        law_rows_of_a_chunk(rows, dim, n, m - 1);
        assert(inputs.take(m).drop_last() =~= inputs.take(m - 1));
        assert(inputs.take(m).last() == inputs[m - 1]);
        let start = (m - 1) * 16384;
        let end = if m * 16384 < n {
            m * 16384
        } else {
            n
        };
        assert(0 <= start * dim <= end * dim <= n * dim) by (nonlinear_arith)
            requires
                0 <= start <= end <= n,
                0 <= dim,
        ;
        assert(rows.subrange(0, start * dim) + rows.subrange(start * dim, end * dim)
            =~= rows.subrange(0, end * dim));
    }
}

/// The covariance is made of every chunk of rows once: each entry is the sum,
/// chunk by chunk, of that entry of the chunk's product. `product` centers on
/// the means; it and the addition are functions here.
pub proof fn law_covariance_sums_all_chunks<
    T,
    U,
    E,
    P: Fn(&Vec<T>, &Vec<U>) -> Result<Vec<T>, E>,
    A: Fn(U, T) -> U,
>(
    product: P,
    p: spec_fn(Seq<T>, Seq<U>) -> Seq<T>,
    plus: A,
    f: spec_fn(U, T) -> U,
    zero: U,
    means: Vec<U>,
    rows: Seq<T>,
    dim: int,
    n: int,
    sums: Vec<U>,
    e: int,
)
    requires
        0 <= dim,
        0 <= n <= usize::MAX,
        rows.len() == n * dim,
        forall|input: Vec<T>, out: Vec<T>| #[trigger]
            call_ensures(product, (&input, &means), Ok(out)) ==> out@ == p(input@, means@),
        forall|sum: U, sample: T, next: U| #[trigger]
            call_ensures(plus, (sum, sample), next) ==> next == f(sum, sample),
        covariance_outcome(product, plus, zero, means, rows, dim, n, Ok(sums)),
        0 <= e < dim * dim,
    ensures
        sums@.len() == dim * dim,
        sums@[e] == Seq::new(
            ((n + 16383) / 16384) as nat,
            |k: int|
                p(
                    rows.subrange(
                        k * 16384 * dim,
                        (if (k + 1) * 16384 < n {
                            (k + 1) * 16384
                        } else {
                            n
                        }) * dim,
                    ),
                    means@,
                )[e],
        ).fold_left(zero, f),
{
    let outcome: Result<Vec<U>, E> = Ok(sums);
    let parts = choose|parts: Seq<Vec<T>>| #[trigger]
        products_of(product, means, rows, dim, n, parts) && match outcome {
            Ok(sums) => parts.len() == chunk_count(n, COV_CHUNK_ROWS as int) && sums@.len() == dim
                * dim && added_up(plus, zero, parts, sums@),
            Err(e) => parts.len() < chunk_count(n, COV_CHUNK_ROWS as int) && product_of(
                product,
                means,
                chunk_rows(rows, dim, chunk_at(n, COV_CHUNK_ROWS as int, parts.len() as int)),
                Err(e),
            ),
        };
    assert(tallied(plus, zero, entries(parts, e), sums@[e]));
    law_tally_is_a_fold(plus, f, zero, entries(parts, e), sums@[e]);
    let samples = Seq::new(
        ((n + 16383) / 16384) as nat,
        |k: int|
            p(
                rows.subrange(
                    k * 16384 * dim,
                    (if (k + 1) * 16384 < n {
                        (k + 1) * 16384
                    } else {
                        n
                    }) * dim,
                ),
                means@,
            )[e],
    );
    assert forall|k: int| 0 <= k < parts.len() implies entries(parts, e)[k] == samples[k] by {
        law_rows_of_a_chunk(rows, dim, n, k);
        let rows_k = chunk_rows(rows, dim, chunk_at(n, COV_CHUNK_ROWS as int, k));
        let part = parts[k];
        assert(product_of(product, means, rows_k, Ok(part)));
        let input = choose|input: Vec<T>|
            input@ == rows_k && #[trigger] call_ensures(product, (&input, &means), Ok(part));
        assert(part@ == p(rows_k, means@));
    }
    assert(entries(parts, e) =~= samples);
}

/// Where summing up the products fails, it is on the first chunk whose product
/// failed: the chunks before it went through.
pub proof fn law_covariance_fails_on_the_first_failed_chunk<
    T,
    U,
    E,
    P: Fn(&Vec<T>, &Vec<U>) -> Result<Vec<T>, E>,
    A: Fn(U, T) -> U,
>(
    product: P,
    plus: A,
    zero: U,
    means: Vec<U>,
    rows: Seq<T>,
    dim: int,
    n: int,
    error: E,
) -> (found: (Seq<Vec<T>>, Seq<Vec<T>>))
    requires
        0 <= dim,
        0 <= n <= usize::MAX,
        rows.len() == n * dim,
        covariance_outcome(product, plus, zero, means, rows, dim, n, Err(error)),
    ensures
        ({
            let (inputs, outs) = found;
            let failed = outs.len() as int;
            &&& inputs.len() == failed + 1
            &&& failed * 16384 < n
            &&& inputs[failed]@ == rows.subrange(
                failed * 16384 * dim,
                (if (failed + 1) * 16384 < n {
                    (failed + 1) * 16384
                } else {
                    n
                }) * dim,
            )
            &&& call_ensures(product, (&inputs[failed], &means), Err(error))
            &&& forall|k: int|
                0 <= k < failed ==> (#[trigger] inputs[k])@ == rows.subrange(
                    k * 16384 * dim,
                    (k + 1) * 16384 * dim,
                ) && call_ensures(product, (&inputs[k], &means), Ok(outs[k]))
        }),
{
    let outcome: Result<Vec<U>, E> = Err(error);
    let parts = choose|parts: Seq<Vec<T>>| #[trigger]
        products_of(product, means, rows, dim, n, parts) && match outcome {
            Ok(sums) => parts.len() == chunk_count(n, COV_CHUNK_ROWS as int) && sums@.len() == dim
                * dim && added_up(plus, zero, parts, sums@),
            Err(e) => parts.len() < chunk_count(n, COV_CHUNK_ROWS as int) && product_of(
                product,
                means,
                chunk_rows(rows, dim, chunk_at(n, COV_CHUNK_ROWS as int, parts.len() as int)),
                Err(e),
            ),
        };
    let failed = parts.len() as int;
    law_rows_of_a_chunk(rows, dim, n, failed);
    let last = chunk_rows(rows, dim, chunk_at(n, COV_CHUNK_ROWS as int, failed));
    let bad = choose|input: Vec<T>|
        input@ == last && #[trigger] call_ensures(product, (&input, &means), Err(error));
    let inputs = Seq::new(
        (failed + 1) as nat,
        |k: int|
            if k == failed {
                bad
            } else {
                choose|input: Vec<T>|
                    input@ == chunk_rows(rows, dim, chunk_at(n, COV_CHUNK_ROWS as int, k))
                        && #[trigger] call_ensures(product, (&input, &means), Ok(parts[k]))
            },
    );
    assert forall|k: int| 0 <= k < failed implies (#[trigger] inputs[k])@ == rows.subrange(
        k * 16384 * dim,
        (k + 1) * 16384 * dim,
    ) && call_ensures(product, (&inputs[k], &means), Ok(parts[k])) by {
        law_rows_of_a_chunk(rows, dim, n, k);
        let rows_k = chunk_rows(rows, dim, chunk_at(n, COV_CHUNK_ROWS as int, k));
        let part = parts[k];
        assert(product_of(product, means, rows_k, Ok(part)));
        assert((k + 1) * 16384 <= failed * 16384);
    }
    (inputs, parts)
}

} // verus!
