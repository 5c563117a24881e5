//! Work on many rows, a bounded number at a time.

use vstd::prelude::*;

verus! {

/// A run of consecutive rows.
#[derive(Clone, Copy, Debug, PartialEq, Eq, Structural)]
pub struct Chunk {
    pub start: usize,
    pub len: usize,
}

/// Chunk `k` of `total` rows: `size` rows from row `k * size` on, or as many as
/// are left.
pub open spec fn chunk_at(total: int, size: int, k: int) -> Chunk {
    Chunk {
        start: (k * size) as usize,
        len: (if total - k * size < size {
            total - k * size
        } else {
            size
        }) as usize,
    }
}

/// How many chunks there are.
pub open spec fn chunk_count(total: int, size: int) -> int {
    (total + size - 1) / size
}

/// Cuts `total` rows into runs of `size`; the last run has what is left.
pub fn chunks_of(total: usize, size: usize) -> (chunks: Vec<Chunk>)
    requires
        size > 0,
    ensures
        chunks@.len() == chunk_count(total as int, size as int),
        forall|k: int|
            0 <= k < chunks@.len() ==> #[trigger] chunks@[k] == chunk_at(
                total as int,
                size as int,
                k,
            ),
        forall|k: int|
            0 <= k < chunks@.len() ==> (#[trigger] chunks@[k]).start == k * size && chunks@[k].len
                == if total - k * size < size {
                total - k * size
            } else {
                size as int
            },
        total <= chunks@.len() * size < total + size,
{
    let mut chunks: Vec<Chunk> = Vec::new();
    let mut start: usize = 0;
    proof {
        assert(0 * size == 0);
    }
    while start < total
        invariant
            size > 0,
            start <= total,
            start < total ==> start == chunks@.len() * size,
            start == total ==> total <= chunks@.len() * size < total + size,
            forall|k: int|
                0 <= k < chunks@.len() ==> #[trigger] chunks@[k] == chunk_at(
                    total as int,
                    size as int,
                    k,
                ),
            forall|k: int|
                0 <= k < chunks@.len() ==> (#[trigger] chunks@[k]).start == k * size
                    && chunks@[k].len == if total - k * size < size {
                    total - k * size
                } else {
                    size as int
                },
        decreases total - start,
    {
        let left: usize = total - start;
        let len: usize = if size < left {
            size
        } else {
            left
        };
        let ghost k = chunks@.len() as int;
        chunks.push(Chunk { start, len });
        start = start + len;
        assert((k + 1) * size == k * size + size) by (nonlinear_arith);
    }
    proof {
        let n = chunks@.len() as int;
        let t = total as int;
        let z = size as int;
        assert((t + z - 1) / z == n) by {
            vstd::arithmetic::div_mod::lemma_fundamental_div_mod_converse(
                t + z - 1,
                z,
                n,
                t + z - 1 - n * z,
            );
        }
    }
    chunks
}

/// The chunks cover every row exactly once: row `r` is in chunk `r / size` and
/// in no other. No chunk is empty or has more than `size` rows.
pub proof fn law_chunks_cover_rows(total: int, size: int, r: int, k: int)
    requires
        size > 0,
        0 <= r < total <= usize::MAX,
        0 <= k < chunk_count(total, size),
    ensures
        0 <= r / size < chunk_count(total, size),
        1 <= chunk_at(total, size, k).len <= size,
        (chunk_at(total, size, k).start <= r < chunk_at(total, size, k).start + chunk_at(
            total,
            size,
            k,
        ).len) <==> k == r / size,
{
    let q = r / size;
    vstd::arithmetic::div_mod::lemma_fundamental_div_mod(r, size);
    assert(size * q == q * size) by (nonlinear_arith);
    assert(q * size <= r < q * size + size);
    vstd::arithmetic::div_mod::lemma_fundamental_div_mod(total + size - 1, size);
    let n = chunk_count(total, size);
    assert(size * n == n * size) by (nonlinear_arith);
    assert(q >= 0) by (nonlinear_arith)
        requires
            r >= 0,
            size > 0,
            r < q * size + size,
    ;
    assert(q < n) by (nonlinear_arith)
        requires
            q * size <= r,
            r < total,
            total <= n * size,
            size > 0,
    ;
    assert(k * size < total && 0 <= k * size) by (nonlinear_arith)
        requires
            0 <= k,
            k <= n - 1,
            n * size <= total + size - 1,
            size > 0,
    ;
    if k < q {
        assert(k * size + size <= q * size) by (nonlinear_arith)
            requires
                k + 1 <= q,
                size > 0,
        ;
    } else if k > q {
        assert(q * size + size <= k * size) by (nonlinear_arith)
            requires
                q + 1 <= k,
                size > 0,
        ;
    }
}

} // verus!
