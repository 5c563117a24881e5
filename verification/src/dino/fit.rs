//! Fitting the principal basis of many feature rows.

use vstd::prelude::*;

use crate::bits::Double;
use crate::dino::moments::{
    column_entries, column_means, covariance, covariance_outcome, mean_of,
};
use crate::dino::pca::{
    basis_entry, column_of, comparable, eigen_order, fitted_rows, principal_basis, ranking,
    select_fit_rows,
};

verus! {

/// `means` may be the column means of `n` rows.
pub open spec fn means_of<T, U, A: Fn(U, T) -> U, D: Fn(U, usize) -> U>(
    plus: A,
    divide: D,
    zero: U,
    rows: Seq<T>,
    dim: int,
    n: usize,
    means: Seq<U>,
) -> bool {
    &&& means.len() == dim
    &&& forall|c: int|
        0 <= c < dim ==> mean_of(
            plus,
            divide,
            zero,
            column_entries(rows, dim, n as nat, c),
            n,
            #[trigger] means[c],
        )
}

/// `basis` may be the leading `q` eigenvectors, rounded.
pub open spec fn rounded_basis<T, R: Fn(Double) -> T>(
    round: R,
    values: Seq<Double>,
    vectors: Seq<Double>,
    q: int,
    basis: Seq<T>,
) -> bool {
    &&& basis.len() == values.len() * q
    &&& forall|r: int, k: int|
        0 <= r < values.len() && 0 <= k < q ==> call_ensures(
            round,
            (basis_entry(vectors, values.len() as int, ranking(values), r, k),),
            #[trigger] basis[r * q + k],
        )
}

/// `basis` may be the principal basis that belongs to a covariance.
pub open spec fn basis_of<T, U, G: Fn(&Vec<U>) -> (Vec<Double>, Vec<Double>), R: Fn(Double) -> T>(
    eigen: G,
    round: R,
    cov: Vec<U>,
    q: int,
    basis: Seq<T>,
) -> bool {
    exists|values: Vec<Double>, vectors: Vec<Double>| #[trigger]
        call_ensures(eigen, (&cov,), (values, vectors)) && rounded_basis(
            round,
            values@,
            vectors@,
            q,
            basis,
        )
}

/// The outcome of fitting a basis on `n` rows that are centered on `means`.
pub open spec fn fit_outcome<
    T,
    U,
    E,
    P: Fn(&Vec<T>, &Vec<U>) -> Result<Vec<T>, E>,
    A: Fn(U, T) -> U,
    G: Fn(&Vec<U>) -> (Vec<Double>, Vec<Double>),
    R: Fn(Double) -> T,
>(
    product: P,
    plus: A,
    eigen: G,
    round: R,
    zero: U,
    means: Vec<U>,
    rows: Seq<T>,
    dim: int,
    n: int,
    q: int,
    outcome: Result<Vec<T>, E>,
) -> bool {
    match outcome {
        Ok(basis) => exists|cov: Vec<U>| #[trigger]
            covariance_outcome(product, plus, zero, means, rows, dim, n, Ok(cov)) && basis_of(
                eigen,
                round,
                cov,
                q,
                basis@,
            ),
        Err(e) => covariance_outcome(product, plus, zero, means, rows, dim, n, Err(e)),
    }
}

/// The outcome of fitting a basis on `n` rows.
pub open spec fn fitted<
    T,
    U,
    E,
    A: Fn(U, T) -> U,
    D: Fn(U, usize) -> U,
    P: Fn(&Vec<T>, &Vec<U>) -> Result<Vec<T>, E>,
    G: Fn(&Vec<U>) -> (Vec<Double>, Vec<Double>),
    R: Fn(Double) -> T,
>(
    plus: A,
    divide: D,
    product: P,
    eigen: G,
    round: R,
    zero: U,
    rows: Seq<T>,
    dim: int,
    n: usize,
    q: int,
    outcome: Result<Vec<T>, E>,
) -> bool {
    exists|means: Vec<U>| #[trigger]
        means_of(plus, divide, zero, rows, dim, n, means@) && fit_outcome(
            product,
            plus,
            eigen,
            round,
            zero,
            means,
            rows,
            dim,
            n as int,
            q,
            outcome,
        )
}

/// Whether everything that has to be compared to find the leading `q`
/// eigenvectors and their signs is a number.
pub fn is_comparable(values: &Vec<Double>, vectors: &Vec<Double>, q: usize) -> (r: bool)
    requires
        vectors@.len() == values@.len() * values@.len(),
    ensures
        r == comparable(values@, vectors@, q as int),
{
    let dim: usize = values.len();
    if dim < 2 {
        return true;
    }
    let mut i: usize = 0;
    while i < dim
        invariant
            i <= dim,
            2 <= dim,
            dim == values@.len(),
            forall|j: int| 0 <= j < i ==> !(#[trigger] values@[j]).nan(),
        decreases dim - i,
    {
        if values[i].order_magnitude() > 0x7ff0_0000_0000_0000 {
            assert(values@[i as int].nan());
            return false;
        }
        i = i + 1;
    }
    let order = eigen_order(values);
    proof {
        crate::dino::pca::law_ranking_descends(values@);
    }
    let mut k: usize = 0;
    while k < q && k < dim
        invariant
            k <= dim,
            k <= q,
            2 <= dim,
            dim == values@.len(),
            vectors@.len() == dim * dim,
            vectors@.len() == vectors.len(),
            order@ == ranking(values@),
            order@.len() == dim,
            forall|j: int| 0 <= j < dim ==> #[trigger] order@[j] < dim,
            forall|j: int, r: int|
                0 <= j < k && 0 <= r < dim ==> !(#[trigger] column_of(
                    vectors@,
                    dim as int,
                    ranking(values@)[j] as int,
                )[r]).nan(),
        decreases dim - k,
    {
        let c: usize = order[k];
        assert(order@[k as int] < dim);
        assert(0 <= c * dim && (c + 1) * dim == c * dim + dim && c * dim + dim <= dim * dim)
            by (nonlinear_arith)
            requires
                0 <= c,
                c + 1 <= dim,
        ;
        let ghost column = column_of(vectors@, dim as int, c as int);
        let mut r: usize = 0;
        while r < dim
            invariant
                k < q,
                k < dim,
                2 <= dim,
                r <= dim,
                dim == values@.len(),
                0 <= c * dim,
                (c + 1) * dim == c * dim + dim,
                c * dim + dim <= vectors@.len(),
                vectors@.len() == vectors.len(),
                c == ranking(values@)[k as int],
                column == column_of(vectors@, dim as int, c as int),
                forall|s: int| 0 <= s < r ==> !(#[trigger] column[s]).nan(),
            decreases dim - r,
        {
            assert(column[r as int] == vectors@[c * dim + r]);
            if vectors[c * dim + r].order_magnitude() > 0x7ff0_0000_0000_0000 {
                assert(column_of(
                    vectors@,
                    values@.len() as int,
                    ranking(values@)[k as int] as int,
                )[r as int].nan());
                return false;
            }
            r = r + 1;
        }
        k = k + 1;
    }
    true
}

/// Fits a basis on `rows` of `dim` values: a row-major `[dim, q]` array whose
/// columns are the leading `q` eigenvectors of the rows' covariance.
///
/// At most a fixed number of rows is used, drawn by a seeded sample. The column
/// means are summed up by `plus` and divided by `divide`; `product` gives the
/// products of a chunk of rows, centered on those means; `eigen` gives the
/// eigenvalues and, column by column, the eigenvectors of their sum; `round`
/// gives an entry of the basis its final form.
pub fn fit_pca<
    T: Copy,
    U: Copy,
    E,
    A: Fn(U, T) -> U,
    D: Fn(U, usize) -> U,
    P: Fn(&Vec<T>, &Vec<U>) -> Result<Vec<T>, E>,
    G: Fn(&Vec<U>) -> (Vec<Double>, Vec<Double>),
    R: Fn(Double) -> T,
>(
    rows: Vec<T>,
    dim: usize,
    q: usize,
    zero: U,
    plus: &A,
    divide: &D,
    product: &P,
    eigen: &G,
    round: &R,
) -> (outcome: Result<Vec<T>, E>)
    requires
        dim > 0,
        rows@.len() % dim as nat == 0,
        dim * dim <= usize::MAX,
        dim * q <= usize::MAX,
        forall|sum: U, sample: T| call_requires(*plus, (sum, sample)),
        forall|sum: U, count: usize| call_requires(*divide, (sum, count)),
        forall|input: &Vec<T>, means: &Vec<U>| call_requires(*product, (input, means)),
        forall|input: &Vec<T>, means: &Vec<U>, out: Vec<T>|
            #[trigger] call_ensures(*product, (input, means), Ok(out)) ==> out@.len() == dim * dim,
        forall|cov: &Vec<U>| call_requires(*eigen, (cov,)),
        forall|cov: &Vec<U>, values: Vec<Double>, vectors: Vec<Double>|
            #[trigger] call_ensures(*eigen, (cov,), (values, vectors)) ==> values@.len() == dim
                && vectors@.len() == dim * dim && comparable(values@, vectors@, q as int),
        forall|entry: Double| call_requires(*round, (entry,)),
    ensures
        fitted(
            *plus,
            *divide,
            *product,
            *eigen,
            *round,
            zero,
            fitted_rows(rows@, dim as int),
            dim as int,
            (fitted_rows(rows@, dim as int).len() as int / dim as int) as usize,
            q as int,
            outcome,
        ),
{
    let fit = select_fit_rows(rows, dim);
    let n: usize = fit.len() / dim;
    proof {
        vstd::arithmetic::div_mod::lemma_fundamental_div_mod(fit@.len() as int, dim as int);
        assert(n * dim == dim * n) by (nonlinear_arith);
    }
    let means = column_means(&fit, dim, n, zero, plus, divide);
    assert(means_of(*plus, *divide, zero, fit@, dim as int, n, means@));
    let outcome = covariance(&fit, dim, n, &means, zero, product, plus);
    let cov = match outcome {
        Err(e) => {
            return Err(e);
        },
        Ok(cov) => cov,
    };
    let (values, vectors) = eigen(&cov);
    assert(call_ensures(*eigen, (&cov,), (values, vectors)));
    let entries = principal_basis(&values, &vectors, q);
    let mut basis: Vec<T> = Vec::new();
    let mut i: usize = 0;
    while i < entries.len()
        invariant
            i <= entries@.len(),
            basis@.len() == i,
            forall|entry: Double| call_requires(*round, (entry,)),
            forall|j: int|
                0 <= j < i ==> call_ensures(*round, (entries@[j],), #[trigger] basis@[j]),
        decreases entries.len() - i,
    {
        basis.push(round(entries[i]));
        i = i + 1;
    }
    proof {
        assert forall|r: int, k: int| 0 <= r < values@.len() && 0 <= k < q implies call_ensures(
            *round,
            (basis_entry(vectors@, values@.len() as int, ranking(values@), r, k),),
            #[trigger] basis@[r * q + k],
        ) by {
            assert(0 <= r * q && r * q + q <= values@.len() * q) by (nonlinear_arith)
                requires
                    0 <= r,
                    r + 1 <= values@.len(),
                    0 <= q,
            ;
            assert(entries@[r * q + k] == basis_entry(
                vectors@,
                values@.len() as int,
                ranking(values@),
                r,
                k,
            ));
        }
        assert(rounded_basis(*round, values@, vectors@, q as int, basis@));
        assert(basis_of(*eigen, *round, cov, q as int, basis@));
    }
    Ok(basis)
}

} // verus!
