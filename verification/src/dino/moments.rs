//! Column means and the covariance of many rows, summed up in a fixed order.
//!
//! The arithmetic is the caller's; what is decided here is what is added up,
//! and in which order.

use vstd::prelude::*;

use crate::dino::chunks::{chunk_at, chunk_count, chunks_of, Chunk};
use crate::dino::pca::COV_CHUNK_ROWS;

verus! {

/// `sums` are running sums: they start from `zero`, and each sample is added.
pub open spec fn tally<T, U, A: Fn(U, T) -> U>(
    plus: A,
    zero: U,
    samples: Seq<T>,
    sums: Seq<U>,
) -> bool {
    &&& sums.len() == samples.len() + 1
    &&& sums[0] == zero
    &&& forall|k: int|
        0 <= k < samples.len() ==> call_ensures(
            plus,
            (sums[k], #[trigger] samples[k]),
            sums[k + 1],
        )
}

/// `total` may be the outcome of starting from `zero` and adding the samples
/// one after the other.
pub open spec fn tallied<T, U, A: Fn(U, T) -> U>(
    plus: A,
    zero: U,
    samples: Seq<T>,
    total: U,
) -> bool {
    exists|sums: Seq<U>| #[trigger] tally(plus, zero, samples, sums) && sums.last() == total
}

proof fn lemma_tally_start<T, U, A: Fn(U, T) -> U>(plus: A, zero: U)
    ensures
        tallied(plus, zero, Seq::<T>::empty(), zero),
{
    assert(tally(plus, zero, Seq::<T>::empty(), seq![zero]));
}

proof fn lemma_tally_step<T, U, A: Fn(U, T) -> U>(
    plus: A,
    zero: U,
    samples: Seq<T>,
    total: U,
    sample: T,
    next: U,
)
    requires
        tallied(plus, zero, samples, total),
        call_ensures(plus, (total, sample), next),
    ensures
        tallied(plus, zero, samples.push(sample), next),
{
    let sums = choose|sums: Seq<U>| #[trigger]
        tally(plus, zero, samples, sums) && sums.last() == total;
    let more = sums.push(next);
    let all = samples.push(sample);
    assert forall|k: int| 0 <= k < all.len() implies call_ensures(
        plus,
        (more[k], #[trigger] all[k]),
        more[k + 1],
    ) by {
        if k < samples.len() {
            assert(all[k] == samples[k]);
        }
    }
    assert(tally(plus, zero, all, more));
}

/// The first `n` entries of column `c` of rows with `dim` columns.
pub open spec fn column_entries<T>(rows: Seq<T>, dim: int, n: nat, c: int) -> Seq<T> {
    Seq::new(n, |r: int| rows[r * dim + c])
}

/// `mean` may be the mean of `n` samples.
pub open spec fn mean_of<T, U, A: Fn(U, T) -> U, D: Fn(U, usize) -> U>(
    plus: A,
    divide: D,
    zero: U,
    samples: Seq<T>,
    n: usize,
    mean: U,
) -> bool {
    exists|total: U| #[trigger]
        tallied(plus, zero, samples, total) && call_ensures(divide, (total, n), mean)
}

/// As many copies of `value` as asked for.
fn repeated<U: Copy>(value: U, count: usize) -> (copies: Vec<U>)
    ensures
        copies@.len() == count,
        forall|i: int| 0 <= i < count ==> #[trigger] copies@[i] == value,
{
    let mut copies: Vec<U> = Vec::new();
    let mut i: usize = 0;
    while i < count
        invariant
            i <= count,
            copies@.len() == i,
            forall|j: int| 0 <= j < i ==> #[trigger] copies@[j] == value,
        decreases count - i,
    {
        copies.push(value);
        i = i + 1;
    }
    copies
}

/// The mean of each column of `n` rows: the entries are added up row by row,
/// and the sums divided by `n`.
pub fn column_means<T: Copy, U: Copy, A: Fn(U, T) -> U, D: Fn(U, usize) -> U>(
    rows: &Vec<T>,
    dim: usize,
    n: usize,
    zero: U,
    plus: &A,
    divide: &D,
) -> (means: Vec<U>)
    requires
        rows@.len() == n * dim,
        forall|sum: U, sample: T| call_requires(*plus, (sum, sample)),
        forall|sum: U, count: usize| call_requires(*divide, (sum, count)),
    ensures
        means@.len() == dim,
        forall|c: int|
            0 <= c < dim ==> mean_of(
                *plus,
                *divide,
                zero,
                column_entries(rows@, dim as int, n as nat, c),
                n,
                #[trigger] means@[c],
            ),
{
    let mut sums: Vec<U> = repeated(zero, dim);
    proof {
        lemma_tally_start::<T, U, A>(*plus, zero);
        assert forall|c: int| 0 <= c < dim implies tallied(
            *plus,
            zero,
            column_entries(rows@, dim as int, 0, c),
            #[trigger] sums@[c],
        ) by {
            assert(column_entries(rows@, dim as int, 0, c) =~= Seq::<T>::empty());
        }
    }
    let mut r: usize = 0;
    while r < n
        invariant
            r <= n,
            rows@.len() == n * dim,
            rows@.len() == rows.len(),
            sums@.len() == dim,
            forall|sum: U, sample: T| call_requires(*plus, (sum, sample)),
            forall|c: int|
                0 <= c < dim ==> tallied(
                    *plus,
                    zero,
                    column_entries(rows@, dim as int, r as nat, c),
                    #[trigger] sums@[c],
                ),
        decreases n - r,
    {
        assert(0 <= r * dim && r * dim + dim <= n * dim) by (nonlinear_arith)
            requires
                0 <= r,
                r + 1 <= n,
                0 <= dim,
        ;
        let mut c: usize = 0;
        while c < dim
            invariant
                r < n,
                c <= dim,
                rows@.len() == rows.len(),
                0 <= r * dim,
                r * dim + dim <= rows@.len(),
                sums@.len() == dim,
                forall|sum: U, sample: T| call_requires(*plus, (sum, sample)),
                forall|d: int|
                    0 <= d < c ==> tallied(
                        *plus,
                        zero,
                        column_entries(rows@, dim as int, (r + 1) as nat, d),
                        #[trigger] sums@[d],
                    ),
                forall|d: int|
                    c <= d < dim ==> tallied(
                        *plus,
                        zero,
                        column_entries(rows@, dim as int, r as nat, d),
                        #[trigger] sums@[d],
                    ),
            decreases dim - c,
        {
            let ghost before = sums@;
            let sum = plus(sums[c], rows[r * dim + c]);
            proof {
                lemma_tally_step(
                    *plus,
                    zero,
                    column_entries(rows@, dim as int, r as nat, c as int),
                    before[c as int],
                    rows@[r * dim + c],
                    sum,
                );
                assert(column_entries(rows@, dim as int, r as nat, c as int).push(
                    rows@[r * dim + c],
                ) =~= column_entries(rows@, dim as int, (r + 1) as nat, c as int));
            }
            sums.set(c, sum);
            c = c + 1;
        }
        r = r + 1;
    }
    let mut means: Vec<U> = Vec::new();
    let mut c: usize = 0;
    while c < dim
        invariant
            c <= dim,
            sums@.len() == dim,
            means@.len() == c,
            forall|sum: U, count: usize| call_requires(*divide, (sum, count)),
            forall|d: int|
                0 <= d < dim ==> tallied(
                    *plus,
                    zero,
                    column_entries(rows@, dim as int, n as nat, d),
                    #[trigger] sums@[d],
                ),
            forall|d: int|
                0 <= d < c ==> mean_of(
                    *plus,
                    *divide,
                    zero,
                    column_entries(rows@, dim as int, n as nat, d),
                    n,
                    #[trigger] means@[d],
                ),
        decreases dim - c,
    {
        assert(tallied(
            *plus,
            zero,
            column_entries(rows@, dim as int, n as nat, c as int),
            sums@[c as int],
        ));
        means.push(divide(sums[c], n));
        c = c + 1;
    }
    means
}

/// The rows of a chunk.
pub open spec fn chunk_rows<T>(rows: Seq<T>, dim: int, chunk: Chunk) -> Seq<T> {
    rows.subrange(chunk.start * dim, chunk.start * dim + chunk.len * dim)
}

/// `outcome` may be what `product` gives for the rows of a chunk.
pub open spec fn product_of<T, U, E, P: Fn(&Vec<T>, &Vec<U>) -> Result<Vec<T>, E>>(
    product: P,
    means: Vec<U>,
    rows: Seq<T>,
    outcome: Result<Vec<T>, E>,
) -> bool {
    exists|input: Vec<T>|
        input@ == rows && #[trigger] call_ensures(product, (&input, &means), outcome)
}

/// Each of `parts` may be the product of its chunk of `n` rows.
pub open spec fn products_of<T, U, E, P: Fn(&Vec<T>, &Vec<U>) -> Result<Vec<T>, E>>(
    product: P,
    means: Vec<U>,
    rows: Seq<T>,
    dim: int,
    n: int,
    parts: Seq<Vec<T>>,
) -> bool {
    forall|k: int|
        0 <= k < parts.len() ==> product_of(
            product,
            means,
            chunk_rows(rows, dim, chunk_at(n, COV_CHUNK_ROWS as int, k)),
            Ok(#[trigger] parts[k]),
        )
}

/// Entry `e` of each part.
pub open spec fn entries<T>(parts: Seq<Vec<T>>, e: int) -> Seq<T> {
    Seq::new(parts.len(), |k: int| parts[k]@[e])
}

/// `sums` are, entry by entry, the parts added up.
pub open spec fn added_up<T, U, A: Fn(U, T) -> U>(
    plus: A,
    zero: U,
    parts: Seq<Vec<T>>,
    sums: Seq<U>,
) -> bool {
    forall|e: int|
        0 <= e < sums.len() ==> tallied(plus, zero, entries(parts, e), #[trigger] sums[e])
}

/// The outcome of summing up the products of all chunks: the sums, or the error
/// of the first product that failed.
pub open spec fn covariance_outcome<
    T,
    U,
    E,
    P: Fn(&Vec<T>, &Vec<U>) -> Result<Vec<T>, E>,
    A: Fn(U, T) -> U,
>(
    product: P,
    plus: A,
    zero: U,
    means: Vec<U>,
    rows: Seq<T>,
    dim: int,
    n: int,
    outcome: Result<Vec<U>, E>,
) -> bool {
    exists|parts: Seq<Vec<T>>| #[trigger]
        products_of(product, means, rows, dim, n, parts) && match outcome {
            Ok(sums) => parts.len() == chunk_count(n, COV_CHUNK_ROWS as int) && sums@.len() == dim
                * dim && added_up(plus, zero, parts, sums@),
            Err(e) => parts.len() < chunk_count(n, COV_CHUNK_ROWS as int) && product_of(
                product,
                means,
                chunk_rows(rows, dim, chunk_at(n, COV_CHUNK_ROWS as int, parts.len() as int)),
                Err(e),
            ),
        }
}

/// A copy of part of `rows`.
fn copied_part<T: Copy>(rows: &Vec<T>, start: usize, len: usize) -> (part: Vec<T>)
    requires
        start + len <= rows@.len(),
    ensures
        part@ == rows@.subrange(start as int, start + len),
{
    let mut part: Vec<T> = Vec::new();
    let mut i: usize = 0;
    while i < len
        invariant
            i <= len,
            start + len <= rows@.len(),
            rows@.len() == rows.len(),
            part@ == rows@.subrange(start as int, start + i),
        decreases len - i,
    {
        part.push(rows[start + i]);
        i = i + 1;
        assert(part@ =~= rows@.subrange(start as int, start + i));
    }
    part
}

/// Adds `part` to `sums`, entry by entry.
fn accumulate<T: Copy, U: Copy, A: Fn(U, T) -> U>(sums: &mut Vec<U>, part: &Vec<T>, plus: &A)
    requires
        old(sums)@.len() == part@.len(),
        forall|sum: U, sample: T| call_requires(*plus, (sum, sample)),
    ensures
        final(sums)@.len() == old(sums)@.len(),
        forall|e: int|
            0 <= e < old(sums)@.len() ==> call_ensures(
                *plus,
                (old(sums)@[e], part@[e]),
                #[trigger] final(sums)@[e],
            ),
{
    let ghost before = sums@;
    let mut i: usize = 0;
    while i < part.len()
        invariant
            i <= part@.len(),
            sums@.len() == part@.len(),
            before.len() == part@.len(),
            forall|sum: U, sample: T| call_requires(*plus, (sum, sample)),
            forall|e: int|
                0 <= e < i ==> call_ensures(*plus, (before[e], part@[e]), #[trigger] sums@[e]),
            forall|e: int| i <= e < before.len() ==> #[trigger] sums@[e] == before[e],
        decreases part.len() - i,
    {
        let sum = plus(sums[i], part[i]);
        sums.set(i, sum);
        i = i + 1;
    }
}

/// The covariance of `n` rows, up to its scale: the products of the rows, which
/// `product` centers on `means`, a chunk of rows at a time, added up entry by
/// entry.
pub fn covariance<
    T: Copy,
    U: Copy,
    E,
    P: Fn(&Vec<T>, &Vec<U>) -> Result<Vec<T>, E>,
    A: Fn(U, T) -> U,
>(
    rows: &Vec<T>,
    dim: usize,
    n: usize,
    means: &Vec<U>,
    zero: U,
    product: &P,
    plus: &A,
) -> (outcome: Result<Vec<U>, E>)
    requires
        rows@.len() == n * dim,
        dim * dim <= usize::MAX,
        forall|input: &Vec<T>, means: &Vec<U>| call_requires(*product, (input, means)),
        forall|input: &Vec<T>, means: &Vec<U>, out: Vec<T>|
            #[trigger] call_ensures(*product, (input, means), Ok(out)) ==> out@.len() == dim * dim,
        forall|sum: U, sample: T| call_requires(*plus, (sum, sample)),
    ensures
        covariance_outcome(*product, *plus, zero, *means, rows@, dim as int, n as int, outcome),
{
    let ghost size = COV_CHUNK_ROWS as int;
    let chunks = chunks_of(n, COV_CHUNK_ROWS);
    let mut sums: Vec<U> = repeated(zero, dim * dim);
    let ghost mut parts: Seq<Vec<T>> = Seq::empty();
    proof {
        lemma_tally_start::<T, U, A>(*plus, zero);
        assert forall|e: int| 0 <= e < sums@.len() implies tallied(
            *plus,
            zero,
            entries(parts, e),
            #[trigger] sums@[e],
        ) by {
            assert(entries(parts, e) =~= Seq::<T>::empty());
        }
    }
    let mut k: usize = 0;
    while k < chunks.len()
        invariant
            k <= chunks@.len(),
            size == COV_CHUNK_ROWS,
            chunks@.len() == chunk_count(n as int, size),
            forall|j: int|
                0 <= j < chunks@.len() ==> #[trigger] chunks@[j] == chunk_at(n as int, size, j),
            rows@.len() == n * dim,
            rows@.len() == rows.len(),
            sums@.len() == dim * dim,
            parts.len() == k,
            products_of(*product, *means, rows@, dim as int, n as int, parts),
            added_up(*plus, zero, parts, sums@),
            forall|input: &Vec<T>, means: &Vec<U>| call_requires(*product, (input, means)),
            forall|input: &Vec<T>, means: &Vec<U>, out: Vec<T>|
                #[trigger] call_ensures(*product, (input, means), Ok(out)) ==> out@.len() == dim
                    * dim,
            forall|sum: U, sample: T| call_requires(*plus, (sum, sample)),
        decreases chunks.len() - k,
    {
        let chunk = chunks[k];
        proof {
            assert(chunks@[k as int] == chunk_at(n as int, size, k as int));
            lemma_chunk_in_rows(n as int, size, k as int);
            assert(0 <= chunk.start * dim && 0 <= chunk.len * dim && chunk.start * dim + chunk.len
                * dim <= n * dim) by (nonlinear_arith)
                requires
                    0 <= chunk.start,
                    0 <= chunk.len,
                    chunk.start + chunk.len <= n,
                    0 <= dim,
            ;
        }
        let input = copied_part(rows, chunk.start * dim, chunk.len * dim);
        let outcome = product(&input, means);
        assert(call_ensures(*product, (&input, means), outcome));
        assert(product_of(
            *product,
            *means,
            chunk_rows(rows@, dim as int, chunk_at(n as int, size, k as int)),
            outcome,
        ));
        match outcome {
            Err(e) => {
                return Err(e);
            },
            Ok(part) => {
                assert(part@.len() == dim * dim);
                let ghost before = sums@;
                let ghost old_parts = parts;
                accumulate(&mut sums, &part, plus);
                proof {
                    parts = parts.push(part);
                    assert forall|e: int| 0 <= e < sums@.len() implies tallied(
                        *plus,
                        zero,
                        entries(parts, e),
                        #[trigger] sums@[e],
                    ) by {
                        assert(tallied(*plus, zero, entries(old_parts, e), before[e]));
                        lemma_tally_step(
                            *plus,
                            zero,
                            entries(old_parts, e),
                            before[e],
                            part@[e],
                            sums@[e],
                        );
                        assert(entries(parts, e) =~= entries(old_parts, e).push(part@[e]));
                    }
                    assert forall|j: int| 0 <= j < parts.len() implies product_of(
                        *product,
                        *means,
                        chunk_rows(rows@, dim as int, chunk_at(n as int, size, j)),
                        Ok(#[trigger] parts[j]),
                    ) by {
                        if j < old_parts.len() {
                            assert(parts[j] == old_parts[j]);
                        }
                    }
                }
            },
        }
        k = k + 1;
    }
    assert(products_of(*product, *means, rows@, dim as int, n as int, parts));
    Ok(sums)
}

/// A chunk ends where the rows end, at the latest.
proof fn lemma_chunk_in_rows(n: int, size: int, k: int)
    requires
        size > 0,
        0 <= n <= usize::MAX,
        0 <= k < chunk_count(n, size),
    ensures
        chunk_at(n, size, k).start == k * size,
        0 <= k * size < n,
        chunk_at(n, size, k).start + chunk_at(n, size, k).len <= n,
{
    vstd::arithmetic::div_mod::lemma_fundamental_div_mod(n + size - 1, size);
    let m = chunk_count(n, size);
    assert(size * m == m * size) by (nonlinear_arith);
    assert(k * size < n && 0 <= k * size) by (nonlinear_arith)
        requires
            0 <= k,
            k <= m - 1,
            m * size <= n + size - 1,
            size > 0,
    ;
}

} // verus!
