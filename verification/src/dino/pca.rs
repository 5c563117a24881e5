//! The principal basis of a set of feature rows: which rows it is fitted on,
//! and how it is laid out from the eigenvectors of their covariance.

use vstd::prelude::*;

use crate::bits::Double;
use crate::sort::{
    law_stable_order_exists, law_stable_order_is_unique, precedes, sort_places, stable_order,
    Ordered,
};

verus! {

/// At most this many rows are fitted.
pub const PCA_MAX_ROWS: usize = 4_000_000;

/// How many rows of the covariance are accumulated at a time.
pub const COV_CHUNK_ROWS: usize = 16_384;

/// The seed of the row sample.
pub const SAMPLE_SEED: u64 = 0;

/// The indices that `rand::seq::index::sample` draws for `amount` of `length`
/// from a `StdRng` seeded with `seed`.
pub uninterp spec fn sampled_indices(seed: u64, length: usize, amount: usize) -> Seq<usize>;

/// Calls `rand::seq::index::sample` with a `StdRng` from
/// `SeedableRng::seed_from_u64`: exactly `amount` distinct indices below
/// `length`, in an order that the seed fixes.
#[verifier::external_body]
fn sample_indices(seed: u64, length: usize, amount: usize) -> (indices: Vec<usize>)
    requires
        amount < length,
    ensures
        indices@ == sampled_indices(seed, length, amount),
        indices@.len() == amount,
        indices@.no_duplicates(),
        forall|i: int| 0 <= i < indices@.len() ==> #[trigger] indices@[i] < length,
{
    let mut rng = <rand::rngs::StdRng as rand::SeedableRng>::seed_from_u64(seed);
    rand::seq::index::sample(&mut rng, length, amount).into_vec()
}

/// Row `r` of a row-major array with `dim` columns.
pub open spec fn row_of<T>(rows: Seq<T>, dim: int, r: int) -> Seq<T> {
    rows.subrange(r * dim, (r + 1) * dim)
}

/// The rows with the given indices, one after the other.
pub open spec fn gathered<T>(rows: Seq<T>, dim: int, indices: Seq<usize>) -> Seq<T>
    decreases indices.len(),
{
    if indices.len() == 0 {
        Seq::empty()
    } else {
        gathered(rows, dim, indices.drop_last()) + row_of(rows, dim, indices.last() as int)
    }
}

/// The rows with the given indices, one after the other.
pub fn gather_rows<T: Copy>(rows: &Vec<T>, dim: usize, indices: &Vec<usize>) -> (out: Vec<T>)
    requires
        forall|i: int|
            0 <= i < indices@.len() ==> (#[trigger] indices@[i] + 1) * dim <= rows@.len(),
    ensures
        out@ == gathered(rows@, dim as int, indices@),
        out@.len() == indices@.len() * dim,
        forall|k: int, c: int|
            0 <= k < indices@.len() && 0 <= c < dim ==> #[trigger] out@[k * dim + c]
                == rows@[indices@[k] * dim + c],
{
    let mut out: Vec<T> = Vec::new();
    let mut i: usize = 0;
    while i < indices.len()
        invariant
            i <= indices@.len(),
            forall|k: int|
                0 <= k < indices@.len() ==> (#[trigger] indices@[k] + 1) * dim <= rows@.len(),
            out@ == gathered(rows@, dim as int, indices@.take(i as int)),
        decreases indices.len() - i,
    {
        let r: usize = indices[i];
        assert((r + 1) * dim <= rows@.len());
        assert(0 <= r * dim <= (r + 1) * dim) by (nonlinear_arith)
            requires
                0 <= r,
                0 <= dim,
        ;
        assert((r + 1) * dim == r * dim + dim) by (nonlinear_arith);
        assert(rows@.len() == rows.len());
        let start: usize = r * dim;
        let ghost before = out@;
        let ghost row = row_of(rows@, dim as int, r as int);
        let mut c: usize = 0;
        while c < dim
            invariant
                c <= dim,
                start == r * dim,
                start + dim <= rows@.len(),
                rows@.len() == rows.len(),
                (r + 1) * dim == r * dim + dim,
                row == row_of(rows@, dim as int, r as int),
                out@ == before + row.take(c as int),
            decreases dim - c,
        {
            out.push(rows[start + c]);
            c = c + 1;
            assert(out@ =~= before + row.take(c as int));
        }
        assert(row.take(c as int) =~= row);
        proof {
            let taken = indices@.take(i + 1);
            assert(taken.drop_last() =~= indices@.take(i as int));
            assert(taken.last() == r);
        }
        i = i + 1;
    }
    assert(indices@.take(i as int) =~= indices@);
    proof {
        lemma_gathered_len(rows@, dim as int, indices@);
        assert forall|k: int, c: int| 0 <= k < indices@.len() && 0 <= c < dim implies #[trigger] out@[k
            * dim + c] == rows@[indices@[k] * dim + c] by {
            law_gathered_entries(rows@, dim as int, indices@, k, c);
        }
    }
    out
}

/// The rows that the basis is fitted on: all of them, or a sample of
/// `PCA_MAX_ROWS`.
pub open spec fn fitted_rows<T>(rows: Seq<T>, dim: int) -> Seq<T> {
    let n = rows.len() as int / dim;
    if n > PCA_MAX_ROWS {
        gathered(rows, dim, sampled_indices(SAMPLE_SEED, n as usize, PCA_MAX_ROWS))
    } else {
        rows
    }
}

/// The indices name `amount` rows out of `n`, none of them twice.
pub open spec fn draws_rows_once(indices: Seq<usize>, n: int, amount: int) -> bool {
    &&& indices.len() == amount
    &&& indices.no_duplicates()
    &&& forall|i: int| 0 <= i < indices.len() ==> #[trigger] indices[i] < n
}

/// The rows that the basis is fitted on, out of `rows` with `dim` columns:
/// all of them, or a seeded sample of `PCA_MAX_ROWS`.
pub fn select_fit_rows<T: Copy>(rows: Vec<T>, dim: usize) -> (fit: Vec<T>)
    requires
        dim > 0,
        rows@.len() % dim as nat == 0,
    ensures
        fit@ == fitted_rows(rows@, dim as int),
        fit@.len() % dim as nat == 0,
        rows@.len() as int / dim as int > PCA_MAX_ROWS ==> draws_rows_once(
            sampled_indices(
                SAMPLE_SEED,
                (rows@.len() as int / dim as int) as usize,
                PCA_MAX_ROWS,
            ),
            rows@.len() as int / dim as int,
            fit@.len() as int / dim as int,
        ),
        rows@.len() as int / dim as int <= 4_000_000 ==> fit@ == rows@,
        rows@.len() as int / dim as int > 4_000_000 ==> fit@.len() == 4_000_000 * dim && forall|
            k: int,
            c: int,
        |
            0 <= k < 4_000_000 && 0 <= c < dim ==> #[trigger] fit@[k * dim + c] == rows@[
            sampled_indices(0, (rows@.len() as int / dim as int) as usize, 4_000_000)[k] * dim
                + c],
{
    let n: usize = rows.len() / dim;
    if n > PCA_MAX_ROWS {
        let indices = sample_indices(SAMPLE_SEED, n, PCA_MAX_ROWS);
        proof {
            assert(n * dim == rows@.len()) by {
                vstd::arithmetic::div_mod::lemma_fundamental_div_mod(
                    rows@.len() as int,
                    dim as int,
                );
                assert(n * dim == dim * n) by (nonlinear_arith);
            }
            assert forall|i: int| 0 <= i < indices@.len() implies (#[trigger] indices@[i] + 1) * dim
                <= rows@.len() by {
                let r = indices@[i] as int;
                assert((r + 1) * dim <= n * dim) by (nonlinear_arith)
                    requires
                        r + 1 <= n,
                        0 < dim,
                ;
            }
        }
        let fit = gather_rows(&rows, dim, &indices);
        proof {
            lemma_gathered_len(rows@, dim as int, indices@);
            vstd::arithmetic::div_mod::lemma_mod_multiples_basic(
                PCA_MAX_ROWS as int,
                dim as int,
            );
            vstd::arithmetic::div_mod::lemma_div_multiples_vanish(
                PCA_MAX_ROWS as int,
                dim as int,
            );
            assert(PCA_MAX_ROWS * dim == dim * PCA_MAX_ROWS) by (nonlinear_arith);
        }
        fit
    } else {
        rows
    }
}

/// The length of what was gathered.
proof fn lemma_gathered_len<T>(rows: Seq<T>, dim: int, indices: Seq<usize>)
    requires
        dim >= 0,
        forall|i: int|
            0 <= i < indices.len() ==> (#[trigger] indices[i] + 1) * dim <= rows.len(),
    ensures
        gathered(rows, dim, indices).len() == indices.len() * dim,
    decreases indices.len(),
{
    if indices.len() > 0 {
        let rest = indices.drop_last();
        assert forall|i: int| 0 <= i < rest.len() implies (#[trigger] rest[i] + 1) * dim
            <= rows.len() by {
            assert(rest[i] == indices[i]);
        }
        lemma_gathered_len(rows, dim, rest);
        let r = indices.last() as int;
        assert((indices[indices.len() - 1] + 1) * dim <= rows.len());
        assert((r + 1) * dim == r * dim + dim) by (nonlinear_arith);
        assert(0 <= r * dim) by (nonlinear_arith)
            requires
                0 <= r,
                0 <= dim,
        ;
        assert(indices.len() * dim == rest.len() * dim + dim) by (nonlinear_arith)
            requires
                indices.len() == rest.len() + 1,
        ;
    } else {
        assert(0 * dim == 0);
    }
}

/// Row `k` of what was gathered is the row that index `k` names.
pub proof fn law_gathered_rows<T>(rows: Seq<T>, dim: int, indices: Seq<usize>, k: int)
    requires
        dim >= 0,
        0 <= k < indices.len(),
        forall|i: int|
            0 <= i < indices.len() ==> (#[trigger] indices[i] + 1) * dim <= rows.len(),
    ensures
        gathered(rows, dim, indices).len() == indices.len() * dim,
        row_of(gathered(rows, dim, indices), dim, k) == row_of(rows, dim, indices[k] as int),
    decreases indices.len(),
{
    let rest = indices.drop_last();
    assert forall|i: int| 0 <= i < rest.len() implies (#[trigger] rest[i] + 1) * dim
        <= rows.len() by {
        assert(rest[i] == indices[i]);
    }
    lemma_gathered_len(rows, dim, rest);
    lemma_gathered_len(rows, dim, indices);
    let r = indices[k] as int;
    assert((indices[k] + 1) * dim <= rows.len());
    assert(0 <= r * dim && (r + 1) * dim == r * dim + dim) by (nonlinear_arith)
        requires
            0 <= r,
            0 <= dim,
    ;
    assert(0 <= k * dim && (k + 1) * dim == k * dim + dim) by (nonlinear_arith)
        requires
            0 <= k,
            0 <= dim,
    ;
    if k < rest.len() {
        law_gathered_rows(rows, dim, rest, k);
        assert((k + 1) * dim <= rest.len() * dim) by (nonlinear_arith)
            requires
                k + 1 <= rest.len(),
                0 <= dim,
        ;
        assert(row_of(gathered(rows, dim, indices), dim, k) =~= row_of(
            gathered(rows, dim, rest),
            dim,
            k,
        ));
    } else {
        assert(row_of(gathered(rows, dim, indices), dim, k) =~= row_of(rows, dim, r));
    }
}

/// Entry `c` of row `k` of what was gathered is entry `c` of the row that index
/// `k` names.
pub proof fn law_gathered_entries<T>(
    rows: Seq<T>,
    dim: int,
    indices: Seq<usize>,
    k: int,
    c: int,
)
    requires
        0 <= k < indices.len(),
        0 <= c < dim,
        forall|i: int|
            0 <= i < indices.len() ==> (#[trigger] indices[i] + 1) * dim <= rows.len(),
    ensures
        gathered(rows, dim, indices).len() == indices.len() * dim,
        gathered(rows, dim, indices)[k * dim + c] == rows[indices[k] * dim + c],
{
    law_gathered_rows(rows, dim, indices, k);
    let r = indices[k] as int;
    assert((r + 1) * dim <= rows.len());
    assert((r + 1) * dim == r * dim + dim && 0 <= r * dim) by (nonlinear_arith)
        requires
            0 <= r,
            0 <= dim,
    ;
    assert((k + 1) * dim == k * dim + dim && 0 <= k * dim && (k + 1) * dim <= indices.len() * dim)
        by (nonlinear_arith)
        requires
            0 <= k,
            k + 1 <= indices.len(),
            0 <= dim,
    ;
    assert(row_of(gathered(rows, dim, indices), dim, k)[c] == gathered(rows, dim, indices)[k * dim
        + c]);
    assert(row_of(rows, dim, r)[c] == rows[r * dim + c]);
}

/// A number that sorts from the largest down.
pub struct Descending {
    pub value: Double,
}

impl Ordered for Descending {
    open spec fn at_most(&self, other: &Self) -> bool {
        other.value.rank() <= self.value.rank()
    }

    proof fn order_is_total(a: &Self, b: &Self) {
    }

    proof fn order_is_transitive(a: &Self, b: &Self, c: &Self) {
    }

    fn is_at_most(&self, other: &Self) -> (r: bool) {
        other.value.order_rank() <= self.value.order_rank()
    }
}

/// The numbers as keys that sort from the largest down.
pub open spec fn descending(values: Seq<Double>) -> Seq<Descending> {
    Seq::new(values.len(), |i: int| Descending { value: values[i] })
}

/// `order` lists the places of `values` from the largest value down; equal
/// values keep their order.
pub open spec fn descending_order(values: Seq<Double>, order: Seq<usize>) -> bool {
    stable_order(descending(values), order)
}

/// The places of `values` from the largest value down.
pub open spec fn ranking(values: Seq<Double>) -> Seq<usize> {
    choose|order: Seq<usize>| descending_order(values, order)
}

/// The ranking lists every place once, and no value in it is followed by a
/// larger one; of equal values the earlier comes first.
pub proof fn law_ranking_descends(values: Seq<Double>)
    requires
        values.len() <= usize::MAX,
    ensures
        ranking(values).len() == values.len(),
        forall|p: usize| p < values.len() ==> #[trigger] ranking(values).contains(p),
        forall|i: int| 0 <= i < values.len() ==> #[trigger] ranking(values)[i] < values.len(),
        forall|i: int, j: int|
            0 <= i < j < values.len() ==> {
                let (a, b) = (#[trigger] ranking(values)[i], #[trigger] ranking(values)[j]);
                ||| values[a as int].rank() > values[b as int].rank()
                ||| values[a as int].rank() == values[b as int].rank() && a < b
            },
{
    law_stable_order_exists(descending(values));
    let order = choose|o: Seq<usize>| stable_order(descending(values), o);
    assert(descending_order(values, order));
    let found = ranking(values);
    assert(descending_order(values, found));
    assert forall|i: int, j: int| 0 <= i < j < values.len() implies {
        let (a, b) = (#[trigger] found[i], #[trigger] found[j]);
        ||| values[a as int].rank() > values[b as int].rank()
        ||| values[a as int].rank() == values[b as int].rank() && a < b
    } by {
        assert(precedes(descending(values), found[i] as int, found[j] as int));
    }
}

/// The ranking by the bits: of two values in it that are not below zero the
/// first has the larger pattern, of two below zero the smaller one, and those
/// below zero come last.
pub proof fn law_ranking_by_bits(values: Seq<Double>, i: int, j: int)
    requires
        values.len() <= usize::MAX,
        0 <= i < j < values.len(),
    ensures
        ({
            let a = values[ranking(values)[i] as int].bits;
            let b = values[ranking(values)[j] as int].bits;
            &&& a < 0x8000_0000_0000_0000 && b < 0x8000_0000_0000_0000 ==> a >= b
            &&& a >= 0x8000_0000_0000_0000 && b >= 0x8000_0000_0000_0000 ==> a <= b
            &&& a > 0x8000_0000_0000_0000 ==> b >= 0x8000_0000_0000_0000
            &&& a == b ==> ranking(values)[i] < ranking(values)[j]
        }),
{
    law_ranking_descends(values);
    let (p, q) = (ranking(values)[i], ranking(values)[j]);
    assert(values[p as int].rank() > values[q as int].rank() || values[p as int].rank()
        == values[q as int].rank() && p < q);
}

/// The places of `values` from the largest value down.
pub fn eigen_order(values: &Vec<Double>) -> (order: Vec<usize>)
    ensures
        order@ == ranking(values@),
        descending_order(values@, order@),
        order@.len() == values@.len(),
        order@.no_duplicates(),
        forall|i: int| 0 <= i < order@.len() ==> #[trigger] order@[i] < values@.len(),
{
    let mut keys: Vec<Descending> = Vec::new();
    let mut i: usize = 0;
    while i < values.len()
        invariant
            i <= values@.len(),
            keys@ == descending(values@).take(i as int),
        decreases values.len() - i,
    {
        keys.push(Descending { value: values[i] });
        i = i + 1;
        assert(keys@ =~= descending(values@).take(i as int));
    }
    assert(keys@ =~= descending(values@));
    let order = sort_places(&keys);
    proof {
        assert(descending_order(values@, order@));
        law_stable_order_is_unique(descending(values@), ranking(values@), order@);
        crate::sort::lemma_order_lists_places(descending(values@), order@);
    }
    order
}

/// The entry of largest magnitude, the last of those that share it.
pub open spec fn largest_entry(column: Seq<Double>) -> int
    decreases column.len(),
{
    if column.len() <= 1 {
        0
    } else {
        let rest = largest_entry(column.drop_last());
        if column.last().magnitude() >= column[rest].magnitude() {
            column.len() - 1
        } else {
            rest
        }
    }
}

/// The column is to be turned: its entry of largest magnitude is below zero.
pub open spec fn points_down(column: Seq<Double>) -> bool {
    column.len() > 0 && column[largest_entry(column)].rank() < 0
}

/// The column with the sign that makes its entry of largest magnitude positive.
pub open spec fn upright(column: Seq<Double>) -> Seq<Double> {
    if points_down(column) {
        Seq::new(column.len(), |i: int| column[i].negated())
    } else {
        column
    }
}

proof fn lemma_largest_entry(column: Seq<Double>)
    requires
        column.len() > 0,
    ensures
        0 <= largest_entry(column) < column.len(),
        forall|i: int|
            0 <= i < column.len() ==> (#[trigger] column[i]).magnitude()
                <= column[largest_entry(column)].magnitude(),
        forall|i: int|
            largest_entry(column) < i < column.len() ==> (#[trigger] column[i]).magnitude()
                < column[largest_entry(column)].magnitude(),
    decreases column.len(),
{
    if column.len() > 1 {
        let rest = column.drop_last();
        lemma_largest_entry(rest);
        let at = largest_entry(rest);
        assert(rest[at] == column[at]);
        assert forall|i: int| 0 <= i < column.len() implies (#[trigger] column[i]).magnitude()
            <= column[largest_entry(column)].magnitude() by {
            if i < rest.len() {
                assert(rest[i] == column[i]);
            }
        }
        assert forall|i: int| largest_entry(column) < i < column.len() implies (
        #[trigger] column[i]).magnitude() < column[largest_entry(column)].magnitude() by {
            if i < rest.len() {
                assert(rest[i] == column[i]);
            }
        }
    }
}

/// After sign canonicalization the entry of largest magnitude is not below
/// zero, and the column is the same line: as it was, or turned as a whole.
pub proof fn law_upright_column(column: Seq<Double>)
    ensures
        upright(column).len() == column.len(),
        !points_down(upright(column)),
        upright(upright(column)) == upright(column),
        upright(column) == column || upright(column) == Seq::new(
            column.len(),
            |i: int| column[i].negated(),
        ),
{
    if points_down(column) {
        let turned = upright(column);
        lemma_turned_entry(column);
        lemma_largest_entry(column);
        assert(turned[largest_entry(column)] == column[largest_entry(column)].negated());
        crate::bits::law_negation_mirrors(column[largest_entry(column)]);
    }
}

/// The sign of a column is decided by its entry of largest magnitude, the last
/// of those that share it: where it is below zero all entries are turned, and
/// otherwise none.
pub proof fn law_largest_entry_decides(column: Seq<Double>, m: int)
    requires
        0 <= m < column.len(),
        forall|i: int|
            0 <= i < column.len() ==> (#[trigger] column[i]).bits as int % 0x8000_0000_0000_0000
                <= column[m].bits as int % 0x8000_0000_0000_0000,
        forall|i: int|
            m < i < column.len() ==> (#[trigger] column[i]).bits as int % 0x8000_0000_0000_0000
                < column[m].bits as int % 0x8000_0000_0000_0000,
    ensures
        upright(column).len() == column.len(),
        forall|i: int|
            0 <= i < column.len() ==> (#[trigger] upright(column)[i]).bits == if column[m].bits
                > 0x8000_0000_0000_0000 {
                if column[i].bits >= 0x8000_0000_0000_0000 {
                    column[i].bits - 0x8000_0000_0000_0000
                } else {
                    column[i].bits + 0x8000_0000_0000_0000
                }
            } else {
                column[i].bits as int
            },
{
    lemma_largest_entry(column);
    let found = largest_entry(column);
    if found < m {
        assert(column[m].magnitude() < column[found].magnitude());
    } else if found > m {
        assert(column[found].magnitude() < column[m].magnitude());
    }
}

proof fn lemma_turned_entry(column: Seq<Double>)
    requires
        column.len() > 0,
    ensures
        largest_entry(Seq::new(column.len(), |i: int| column[i].negated())) == largest_entry(
            column,
        ),
    decreases column.len(),
{
    let turned = Seq::new(column.len(), |i: int| column[i].negated());
    if column.len() > 1 {
        let rest = column.drop_last();
        lemma_turned_entry(rest);
        assert(turned.drop_last() =~= Seq::new(rest.len(), |i: int| rest[i].negated()));
        lemma_largest_entry(rest);
        let at = largest_entry(rest);
        assert(rest[at] == column[at]);
        crate::bits::law_negation_mirrors(column[at]);
        crate::bits::law_negation_mirrors(column.last());
    }
}

/// Column `c` of a column-major square matrix.
pub open spec fn column_of(vectors: Seq<Double>, dim: int, c: int) -> Seq<Double> {
    vectors.subrange(c * dim, (c + 1) * dim)
}

/// Entry `(r, k)` of the basis: entry `r` of the eigenvector in place `k`, with
/// its sign made canonical, or zero where there is no such eigenvector.
pub open spec fn basis_entry(
    vectors: Seq<Double>,
    dim: int,
    order: Seq<usize>,
    r: int,
    k: int,
) -> Double {
    if k < order.len() {
        upright(column_of(vectors, dim, order[k] as int))[r]
    } else {
        Double { bits: 0 }
    }
}

/// A column of the basis is the eigenvector that the order names, entry by
/// entry; all of it is turned where its entry of largest magnitude, the last of
/// those that share it, is below zero, and none of it otherwise. There are as
/// many columns as eigenvectors; after them the basis is zero.
pub proof fn law_basis_column(
    vectors: Seq<Double>,
    dim: int,
    order: Seq<usize>,
    r: int,
    k: int,
    m: int,
)
    requires
        vectors.len() == dim * dim,
        order.len() == dim,
        0 <= r < dim,
        0 <= k,
        k < dim ==> order[k] < dim,
        0 <= m < dim,
        k < dim ==> forall|i: int|
            0 <= i < dim ==> (#[trigger] vectors[order[k] * dim + i]).bits as int
                % 0x8000_0000_0000_0000 <= vectors[order[k] * dim + m].bits as int
                % 0x8000_0000_0000_0000,
        k < dim ==> forall|i: int|
            m < i < dim ==> (#[trigger] vectors[order[k] * dim + i]).bits as int
                % 0x8000_0000_0000_0000 < vectors[order[k] * dim + m].bits as int
                % 0x8000_0000_0000_0000,
    ensures
        basis_entry(vectors, dim, order, r, k).bits == if k >= dim {
            0
        } else if vectors[order[k] * dim + m].bits <= 0x8000_0000_0000_0000 {
            vectors[order[k] * dim + r].bits as int
        } else if vectors[order[k] * dim + r].bits >= 0x8000_0000_0000_0000 {
            vectors[order[k] * dim + r].bits - 0x8000_0000_0000_0000
        } else {
            vectors[order[k] * dim + r].bits + 0x8000_0000_0000_0000
        },
{
    if k < dim {
        let c = order[k] as int;
        lemma_entry_place(dim, c, r);
        lemma_entry_place(dim, c, m);
        let column = column_of(vectors, dim, c);
        assert forall|i: int| 0 <= i < dim implies #[trigger] column[i] == vectors[c * dim
            + i] by {
            lemma_entry_place(dim, c, i);
        }
        assert forall|i: int| 0 <= i < column.len() implies (#[trigger] column[i]).bits as int
            % 0x8000_0000_0000_0000 <= column[m].bits as int % 0x8000_0000_0000_0000 by {
            assert(column[i] == vectors[c * dim + i]);
        }
        assert forall|i: int| m < i < column.len() implies (#[trigger] column[i]).bits as int
            % 0x8000_0000_0000_0000 < column[m].bits as int % 0x8000_0000_0000_0000 by {
            assert(column[i] == vectors[c * dim + i]);
        }
        law_largest_entry_decides(column, m);
        assert(upright(column)[r].bits == basis_entry(vectors, dim, order, r, k).bits);
    }
}

/// Whether the column is to be turned.
fn points_down_at(vectors: &Vec<Double>, dim: usize, c: usize) -> (down: bool)
    requires
        dim > 0,
        (c + 1) * dim <= vectors@.len(),
    ensures
        down == points_down(column_of(vectors@, dim as int, c as int)),
{
    let ghost column = column_of(vectors@, dim as int, c as int);
    assert((c + 1) * dim == c * dim + dim) by (nonlinear_arith);
    assert(0 <= c * dim) by (nonlinear_arith)
        requires
            0 <= c,
            0 < dim,
    ;
    assert(vectors@.len() == vectors.len());
    let start: usize = c * dim;
    let mut largest: usize = 0;
    let mut i: usize = 1;
    while i < dim
        invariant
            1 <= i <= dim,
            start == c * dim,
            (c + 1) * dim == c * dim + dim,
            start + dim <= vectors@.len(),
            vectors@.len() == vectors.len(),
            column == column_of(vectors@, dim as int, c as int),
            column.len() == dim,
            largest == largest_entry(column.take(i as int)),
            largest < i,
        decreases dim - i,
    {
        proof {
            let taken = column.take(i + 1);
            assert(taken.drop_last() =~= column.take(i as int));
            assert(taken.last() == column[i as int]);
            assert(column[i as int] == vectors@[start + i]);
            assert(column[largest as int] == vectors@[start + largest]);
        }
        if vectors[start + i].order_magnitude() >= vectors[start + largest].order_magnitude() {
            largest = i;
        }
        i = i + 1;
    }
    assert(column.take(i as int) =~= column);
    assert(column[largest as int] == vectors@[start + largest]);
    vectors[start + largest].order_rank() < 0
}

/// Everything that has to be compared to find the leading `q` eigenvectors and
/// their signs is a number.
pub open spec fn comparable(values: Seq<Double>, vectors: Seq<Double>, q: int) -> bool {
    values.len() >= 2 ==> {
        &&& forall|i: int| 0 <= i < values.len() ==> !(#[trigger] values[i]).nan()
        &&& forall|k: int, r: int|
            0 <= k < q && k < values.len() && 0 <= r < values.len() ==> !(#[trigger] column_of(
                vectors,
                values.len() as int,
                ranking(values)[k] as int,
            )[r]).nan()
    }
}

/// What has to be compared are the eigenvalues and the entries of the leading
/// `q` eigenvectors: all of them are numbers, by their bits, exactly if
/// everything that has to be compared is.
pub proof fn law_what_is_compared(values: Seq<Double>, vectors: Seq<Double>, q: int)
    requires
        2 <= values.len() <= usize::MAX,
        vectors.len() == values.len() * values.len(),
    ensures
        comparable(values, vectors, q) ==> forall|i: int|
            0 <= i < values.len() ==> (#[trigger] values[i]).bits as int % 0x8000_0000_0000_0000
                <= 0x7ff0_0000_0000_0000,
        comparable(values, vectors, q) ==> forall|k: int, i: int|
            0 <= k < q && k < values.len() && 0 <= i < values.len() ==> (
            #[trigger] vectors[ranking(values)[k] * values.len() + i]).bits as int
                % 0x8000_0000_0000_0000 <= 0x7ff0_0000_0000_0000,
        !comparable(values, vectors, q) ==> (exists|i: int|
            0 <= i < values.len() && (#[trigger] values[i]).bits as int % 0x8000_0000_0000_0000
                > 0x7ff0_0000_0000_0000) || (exists|k: int, i: int|
            0 <= k < q && k < values.len() && 0 <= i < values.len() && (
            #[trigger] vectors[ranking(values)[k] * values.len() + i]).bits as int
                % 0x8000_0000_0000_0000 > 0x7ff0_0000_0000_0000),
{
    law_ranking_descends(values);
    let dim = values.len() as int;
    assert forall|k: int, i: int| 0 <= k < q && k < dim && 0 <= i < dim implies column_of(
        vectors,
        dim,
        ranking(values)[k] as int,
    )[i] == #[trigger] vectors[ranking(values)[k] * values.len() + i] by {
        assert(ranking(values)[k] < values.len());
        lemma_entry_place(dim, ranking(values)[k] as int, i);
    }
    if comparable(values, vectors, q) {
        assert forall|k: int, i: int|
            0 <= k < q && k < values.len() && 0 <= i < values.len() implies (
        #[trigger] vectors[ranking(values)[k] * values.len() + i]).bits as int
            % 0x8000_0000_0000_0000 <= 0x7ff0_0000_0000_0000 by {
            assert(!column_of(vectors, dim, ranking(values)[k] as int)[i].nan());
        }
    } else if forall|i: int| 0 <= i < values.len() ==> !(#[trigger] values[i]).nan() {
        let (k, i) = choose|k: int, i: int|
            0 <= k < q && k < values.len() && 0 <= i < values.len() && (#[trigger] column_of(
                vectors,
                values.len() as int,
                ranking(values)[k] as int,
            )[i]).nan();
        assert(vectors[ranking(values)[k] * values.len() + i].nan());
    }
}

/// The leading `q` eigenvectors as the columns of a row-major `[dim, q]` basis,
/// from the largest eigenvalue down, each with its sign made canonical.
/// `vectors` holds the eigenvectors as the columns of a column-major matrix.
pub fn principal_basis(values: &Vec<Double>, vectors: &Vec<Double>, q: usize) -> (basis: Vec<
    Double,
>)
    requires
        vectors@.len() == values@.len() * values@.len(),
        values@.len() * q <= usize::MAX,
        comparable(values@, vectors@, q as int),
    ensures
        basis@.len() == values@.len() * q,
        forall|r: int, k: int|
            0 <= r < values@.len() && 0 <= k < q ==> #[trigger] basis@[r * q + k] == basis_entry(
                vectors@,
                values@.len() as int,
                ranking(values@),
                r,
                k,
            ),
        forall|r: int, k: int|
            0 <= r < values@.len() && values@.len() <= k < q ==> (#[trigger] basis@[r * q
                + k]).bits == 0,
        forall|r: int, k: int|
            0 <= r < values@.len() && 0 <= k < q && k < values@.len() ==> {
                let entry = vectors@[ranking(values@)[k] * values@.len() + r];
                ||| (#[trigger] basis@[r * q + k]).bits == entry.bits
                ||| basis@[r * q + k].bits == entry.bits + 0x8000_0000_0000_0000
                ||| basis@[r * q + k].bits == entry.bits - 0x8000_0000_0000_0000
            },
{
    let dim: usize = values.len();
    let order = eigen_order(values);
    let mut turned: Vec<bool> = Vec::new();
    let mut k: usize = 0;
    while k < order.len()
        invariant
            k <= order@.len(),
            dim == values@.len(),
            vectors@.len() == dim * dim,
            descending_order(values@, order@),
            turned@.len() == k,
            forall|j: int|
                0 <= j < k ==> #[trigger] turned@[j] == points_down(
                    column_of(vectors@, dim as int, order@[j] as int),
                ),
        decreases order.len() - k,
    {
        let c: usize = order[k];
        assert((c + 1) * dim <= dim * dim) by (nonlinear_arith)
            requires
                c + 1 <= dim,
        ;
        turned.push(points_down_at(vectors, dim, c));
        k = k + 1;
    }
    let mut basis: Vec<Double> = Vec::new();
    let mut r: usize = 0;
    proof {
        assert(0 * q == 0);
    }
    while r < dim
        invariant
            r <= dim,
            dim == values@.len(),
            order@.len() == dim,
            vectors@.len() == dim * dim,
            vectors@.len() == vectors.len(),
            dim * q <= usize::MAX,
            descending_order(values@, order@),
            turned@.len() == dim,
            forall|j: int|
                0 <= j < dim ==> #[trigger] turned@[j] == points_down(
                    column_of(vectors@, dim as int, order@[j] as int),
                ),
            basis@.len() == r * q,
            forall|s: int, j: int|
                0 <= s < r && 0 <= j < q ==> #[trigger] basis@[s * q + j] == basis_entry(
                    vectors@,
                    dim as int,
                    order@,
                    s,
                    j,
                ),
        decreases dim - r,
    {
        let mut j: usize = 0;
        while j < q
            invariant
                j <= q,
                r < dim,
                dim == values@.len(),
                order@.len() == dim,
                vectors@.len() == dim * dim,
                vectors@.len() == vectors.len(),
                descending_order(values@, order@),
                turned@.len() == dim,
                forall|l: int|
                    0 <= l < dim ==> #[trigger] turned@[l] == points_down(
                        column_of(vectors@, dim as int, order@[l] as int),
                    ),
                basis@.len() == r * q + j,
                forall|s: int, l: int|
                    0 <= s < r && 0 <= l < q ==> #[trigger] basis@[s * q + l] == basis_entry(
                        vectors@,
                        dim as int,
                        order@,
                        s,
                        l,
                    ),
                forall|l: int|
                    0 <= l < j ==> #[trigger] basis@[r * q + l] == basis_entry(
                        vectors@,
                        dim as int,
                        order@,
                        r as int,
                        l,
                    ),
            decreases q - j,
        {
            let ghost before = basis@;
            let entry = if j < dim {
                let c: usize = order[j];
                proof {
                    lemma_entry_place(dim as int, c as int, r as int);
                }
                let value = vectors[c * dim + r];
                assert(value == column_of(vectors@, dim as int, c as int)[r as int]);
                if turned[j] {
                    value.negate()
                } else {
                    value
                }
            } else {
                Double::zero()
            };
            basis.push(entry);
            proof {
                assert forall|s: int, l: int| 0 <= s < r && 0 <= l < q implies #[trigger] basis@[s
                    * q + l] == basis_entry(vectors@, dim as int, order@, s, l) by {
                    lemma_row_before(q as int, s, l, r as int);
                    assert(basis@[s * q + l] == before[s * q + l]);
                }
                assert(0 <= r * q) by (nonlinear_arith)
                    requires
                        0 <= r,
                        0 <= q,
                ;
                assert forall|l: int| 0 <= l < j + 1 implies #[trigger] basis@[r * q + l]
                    == basis_entry(vectors@, dim as int, order@, r as int, l) by {
                    if l < j {
                        assert(basis@[r * q + l] == before[r * q + l]);
                    }
                }
            }
            j = j + 1;
        }
        proof {
            assert((r + 1) * q == r * q + q) by (nonlinear_arith);
            assert forall|s: int, l: int| 0 <= s < r + 1 && 0 <= l < q implies #[trigger] basis@[s
                * q + l] == basis_entry(vectors@, dim as int, order@, s, l) by {
                if s == r {
                    assert(basis@[r * q + l] == basis_entry(
                        vectors@,
                        dim as int,
                        order@,
                        r as int,
                        l,
                    ));
                }
            }
        }
        r = r + 1;
    }
    proof {
        law_ranking_descends(values@);
        assert forall|r: int, k: int|
            0 <= r < values@.len() && 0 <= k < q && k < values@.len() implies {
            let entry = vectors@[ranking(values@)[k] * values@.len() + r];
            ||| (#[trigger] basis@[r * q + k]).bits == entry.bits
            ||| basis@[r * q + k].bits == entry.bits + 0x8000_0000_0000_0000
            ||| basis@[r * q + k].bits == entry.bits - 0x8000_0000_0000_0000
        } by {
            let c = ranking(values@)[k] as int;
            assert(ranking(values@)[k] < values@.len());
            lemma_entry_place(dim as int, c, r);
            let column = column_of(vectors@, dim as int, c);
            assert(column[r] == vectors@[c * dim + r]);
            assert(basis@[r * q + k] == upright(column)[r]);
            law_upright_column(column);
        }
    }
    basis
}

proof fn lemma_entry_place(dim: int, c: int, r: int)
    requires
        0 <= c < dim,
        0 <= r < dim,
    ensures
        0 <= c * dim,
        c * dim + r < dim * dim,
        (c + 1) * dim == c * dim + dim,
        (c + 1) * dim <= dim * dim,
{
    assert((c + 1) * dim == c * dim + dim) by (nonlinear_arith);
    assert((c + 1) * dim <= dim * dim) by (nonlinear_arith)
        requires
            c + 1 <= dim,
            0 <= dim,
    ;
    assert(0 <= c * dim) by (nonlinear_arith)
        requires
            0 <= c,
            0 <= dim,
    ;
}

proof fn lemma_row_before(q: int, s: int, l: int, r: int)
    requires
        0 <= s < r,
        0 <= l < q,
    ensures
        0 <= s * q + l < r * q,
{
    assert((s + 1) * q == s * q + q) by (nonlinear_arith);
    assert((s + 1) * q <= r * q) by (nonlinear_arith)
        requires
            s + 1 <= r,
            0 <= q,
    ;
    assert(0 <= s * q) by (nonlinear_arith)
        requires
            0 <= s,
            0 <= q,
    ;
}

} // verus!
