//! What a fitted basis is, from the rows to its entries.

use vstd::prelude::*;

use crate::bits::Double;
use crate::dino::fit::{basis_of, fit_outcome, fitted, means_of, rounded_basis};
use crate::dino::moments::{column_entries, covariance_outcome, mean_of};
use crate::dino::moments_laws::{law_covariance_sums_all_chunks, law_mean_of_a_column};
use crate::dino::pca::{
    basis_entry, fitted_rows, law_gathered_entries, ranking, sampled_indices, PCA_MAX_ROWS,
    SAMPLE_SEED,
};

verus! {

/// A basis is fitted on all rows, unless there are more than four million of
/// them: then on four million rows, each as it is.
pub proof fn law_rows_that_are_fitted<T>(rows: Seq<T>, dim: int, k: int, c: int)
    requires
        0 <= c < dim,
        rows.len() % dim as nat == 0,
        rows.len() <= usize::MAX,
        rows.len() as int / dim > 4_000_000 ==> {
            let drawn = sampled_indices(0, (rows.len() as int / dim) as usize, 4_000_000);
            &&& drawn.len() == 4_000_000
            &&& forall|i: int|
                0 <= i < drawn.len() ==> #[trigger] drawn[i] < rows.len() as int / dim
        },
        0 <= k < 4_000_000,
    ensures
        rows.len() as int / dim <= 4_000_000 ==> fitted_rows(rows, dim) == rows,
        rows.len() as int / dim > 4_000_000 ==> fitted_rows(rows, dim).len() == 4_000_000 * dim
            && fitted_rows(rows, dim)[k * dim + c] == rows[sampled_indices(
            0,
            (rows.len() as int / dim) as usize,
            4_000_000,
        )[k] * dim + c],
{
    let n = rows.len() as int / dim;
    if n > 4_000_000 {
        let drawn = sampled_indices(SAMPLE_SEED, n as usize, PCA_MAX_ROWS);
        assert(drawn == sampled_indices(0, n as usize, 4_000_000));
        vstd::arithmetic::div_mod::lemma_fundamental_div_mod(rows.len() as int, dim);
        assert(n * dim == dim * n) by (nonlinear_arith);
        assert forall|i: int| 0 <= i < drawn.len() implies (#[trigger] drawn[i] + 1) * dim
            <= rows.len() by {
            let r = drawn[i] as int;
            assert((r + 1) * dim <= n * dim) by (nonlinear_arith)
                requires
                    r + 1 <= n,
                    0 < dim,
            ;
        }
        law_gathered_entries(rows, dim, drawn, k, c);
    }
}

/// A fitted basis, entry by entry, where the operations handed in are functions:
/// the rows are centered on the column means, their products are summed up over
/// all chunks of rows, and column `k` is the eigenvector of that sum in place
/// `k`, rounded.
pub proof fn law_fitted_basis<
    T,
    U,
    E,
    A: Fn(U, T) -> U,
    D: Fn(U, usize) -> U,
    P: Fn(&Vec<T>, &Vec<U>) -> Result<Vec<T>, E>,
    G: Fn(&Vec<U>) -> (Vec<Double>, Vec<Double>),
    R: Fn(Double) -> T,
>(
    plus: A,
    f: spec_fn(U, T) -> U,
    divide: D,
    g: spec_fn(U, usize) -> U,
    product: P,
    p: spec_fn(Seq<T>, Seq<U>) -> Seq<T>,
    eigen: G,
    values_of: spec_fn(Seq<U>) -> Seq<Double>,
    vectors_of: spec_fn(Seq<U>) -> Seq<Double>,
    round: R,
    rounded: spec_fn(Double) -> T,
    zero: U,
    rows: Seq<T>,
    dim: int,
    n: usize,
    q: int,
    basis: Vec<T>,
    r: int,
    k: int,
)
    requires
        0 < dim,
        rows.len() == n * dim,
        forall|sum: U, sample: T, next: U| #[trigger]
            call_ensures(plus, (sum, sample), next) ==> next == f(sum, sample),
        forall|sum: U, count: usize, quotient: U| #[trigger]
            call_ensures(divide, (sum, count), quotient) ==> quotient == g(sum, count),
        forall|input: Vec<T>, means: Vec<U>, out: Vec<T>| #[trigger]
            call_ensures(product, (&input, &means), Ok(out)) ==> out@ == p(input@, means@),
        forall|cov: Vec<U>, values: Vec<Double>, vectors: Vec<Double>| #[trigger]
            call_ensures(eigen, (&cov,), (values, vectors)) ==> values@ == values_of(cov@)
                && vectors@ == vectors_of(cov@) && values@.len() == dim,
        forall|entry: Double, out: T| #[trigger]
            call_ensures(round, (entry,), out) ==> out == rounded(entry),
        fitted(plus, divide, product, eigen, round, zero, rows, dim, n, q, Ok::<_, E>(basis)),
        0 <= r < dim,
        0 <= k < q,
    ensures
        ({
            let means = Seq::new(
                dim as nat,
                |c: int|
                    g(Seq::new(n as nat, |i: int| rows[i * dim + c]).fold_left(zero, f), n),
            );
            let cov = Seq::new(
                (dim * dim) as nat,
                |e: int|
                    Seq::new(
                        ((n + 16383) / 16384) as nat,
                        |j: int|
                            p(
                                rows.subrange(
                                    j * 16384 * dim,
                                    (if (j + 1) * 16384 < n {
                                        (j + 1) * 16384
                                    } else {
                                        n as int
                                    }) * dim,
                                ),
                                means,
                            )[e],
                    ).fold_left(zero, f),
            );
            &&& basis@.len() == dim * q
            &&& basis@[r * q + k] == rounded(
                basis_entry(vectors_of(cov), dim, ranking(values_of(cov)), r, k),
            )
        }),
{
    let means = choose|means: Vec<U>| #[trigger]
        means_of(plus, divide, zero, rows, dim, n, means@) && fit_outcome(
            product,
            plus,
            eigen,
            round,
            zero,
            means,
            rows,
            dim,
            n as int,
            q,
            Ok::<_, E>(basis),
        );
    let all_means = Seq::new(
        dim as nat,
        |c: int| g(Seq::new(n as nat, |i: int| rows[i * dim + c]).fold_left(zero, f), n),
    );
    assert(means@ =~= all_means) by {
        assert forall|c: int| 0 <= c < dim implies means@[c] == all_means[c] by {
            assert(mean_of(
                plus,
                divide,
                zero,
                column_entries(rows, dim, n as nat, c),
                n,
                means@[c],
            ));
            law_mean_of_a_column(plus, f, divide, g, zero, rows, dim, n, c, means@[c]);
        }
    }
    let cov = choose|cov: Vec<U>| #[trigger]
        covariance_outcome(
            product,
            plus,
            zero,
            means,
            rows,
            dim,
            n as int,
            Ok::<_, E>(cov),
        ) && basis_of(eigen, round, cov, q, basis@);
    let all_sums = Seq::new(
        (dim * dim) as nat,
        |e: int|
            Seq::new(
                ((n + 16383) / 16384) as nat,
                |j: int|
                    p(
                        rows.subrange(
                            j * 16384 * dim,
                            (if (j + 1) * 16384 < n {
                                (j + 1) * 16384
                            } else {
                                n as int
                            }) * dim,
                        ),
                        all_means,
                    )[e],
            ).fold_left(zero, f),
    );
    assert(0 < dim * dim) by (nonlinear_arith)
        requires
            0 < dim,
    ;
    law_covariance_sums_all_chunks(
        product,
        p,
        plus,
        f,
        zero,
        means,
        rows,
        dim,
        n as int,
        cov,
        0,
    );
    assert(cov@ =~= all_sums) by {
        assert forall|e: int| 0 <= e < dim * dim implies cov@[e] == all_sums[e] by {
            law_covariance_sums_all_chunks(
                product,
                p,
                plus,
                f,
                zero,
                means,
                rows,
                dim,
                n as int,
                cov,
                e,
            );
            let a = Seq::new(
                ((n + 16383) / 16384) as nat,
                |j: int|
                    p(
                        rows.subrange(
                            j * 16384 * dim,
                            (if (j + 1) * 16384 < n {
                                (j + 1) * 16384
                            } else {
                                n as int
                            }) * dim,
                        ),
                        all_means,
                    )[e],
            );
            let b = Seq::new(
                ((n + 16383) / 16384) as nat,
                |j: int|
                    p(
                        rows.subrange(
                            j * 16384 * dim,
                            (if (j + 1) * 16384 < n {
                                (j + 1) * 16384
                            } else {
                                n as int
                            }) * dim,
                        ),
                        means@,
                    )[e],
            );
            assert(a =~= b);
        }
    }
    let (values, vectors) = choose|values: Vec<Double>, vectors: Vec<Double>| #[trigger]
        call_ensures(eigen, (&cov,), (values, vectors)) && rounded_basis(
            round,
            values@,
            vectors@,
            q,
            basis@,
        );
    assert(call_ensures(eigen, (&cov,), (values, vectors)));
    assert(rounded_basis(round, values@, vectors@, q, basis@));
    assert(call_ensures(
        round,
        (basis_entry(vectors@, values@.len() as int, ranking(values@), r, k),),
        basis@[r * q + k],
    ));
}

} // verus!
