//! Splitting a batch into contiguous, balanced chunks, one per connection.

use vstd::prelude::*;

verus! {

/// A half-open range `start..end` of positions in a batch.
#[derive(Clone, Copy, Debug, PartialEq, Eq, Structural)]
pub struct ChunkRange {
    pub start: usize,
    pub end: usize,
}

/// Length of chunk `i` when `total` items are split into `chunks` chunks: the
/// quotient, and one more for each of the first `total % chunks` chunks.
pub open spec fn chunk_len(total: nat, chunks: nat, i: nat) -> nat
    recommends
        chunks > 0,
{
    total / chunks + if i < total % chunks {
        1nat
    } else {
        0nat
    }
}

/// Position at which chunk `i` begins.
pub open spec fn chunk_start(total: nat, chunks: nat, i: nat) -> nat
    recommends
        chunks > 0,
{
    i * (total / chunks) + if i < total % chunks {
        i
    } else {
        total % chunks
    }
}

/// The connection that serves chunk `i`: connections are taken in turn.
pub open spec fn client_of_chunk(i: nat, clients: nat) -> nat
    recommends
        clients > 0,
{
    i % clients
}

/// Chunks follow one another without gap or overlap, the first begins at 0 and
/// the last ends at `total`; no chunk begins beyond `total`.
pub proof fn lemma_chunks_are_contiguous(total: nat, chunks: nat, i: nat)
    requires
        chunks > 0,
        i < chunks,
    ensures
        chunk_start(total, chunks, 0) == 0,
        chunk_start(total, chunks, i + 1) == chunk_start(total, chunks, i) + chunk_len(
            total,
            chunks,
            i,
        ),
        chunk_start(total, chunks, chunks) == total,
        chunk_start(total, chunks, i + 1) <= total,
{
    let q = total / chunks;
    let r = total % chunks;
    assert(total == chunks * q + r && r < chunks) by (nonlinear_arith)
        requires
            chunks > 0,
            q == total / chunks,
            r == total % chunks,
    ;
    assert((i + 1) * q == i * q + q) by (nonlinear_arith);
    assert((i + 1) * q <= chunks * q) by (nonlinear_arith)
        requires
            i + 1 <= chunks,
    ;
    assert(0 * q == 0) by (nonlinear_arith);
}

/// Any two chunks differ in length by at most one.
pub proof fn lemma_chunks_are_balanced(total: nat, chunks: nat, i: nat, j: nat)
    requires
        chunks > 0,
    ensures
        chunk_len(total, chunks, i) <= chunk_len(total, chunks, j) + 1,
{
}

/// Chunk starts do not decrease with the chunk's number.
pub proof fn lemma_chunk_start_monotone(total: nat, chunks: nat, i: nat, j: nat)
    requires
        chunks > 0,
        i <= j,
    ensures
        chunk_start(total, chunks, i) <= chunk_start(total, chunks, j),
{
    let q = total / chunks;
    assert(i * q <= j * q) by (nonlinear_arith)
        requires
            i <= j,
    ;
}

/// Every position of the batch lies in exactly one chunk.
pub proof fn lemma_position_in_one_chunk(total: nat, chunks: nat, pos: nat) -> (i: nat)
    requires
        chunks > 0,
        pos < total,
    ensures
        i < chunks,
        chunk_start(total, chunks, i) <= pos < chunk_start(total, chunks, i + 1),
        forall|j: nat|
            j < chunks && #[trigger] chunk_start(total, chunks, j) <= pos < chunk_start(
                total,
                chunks,
                j + 1,
            ) ==> j == i,
{
    let i = first_chunk_past(total, chunks, pos, 0);
    assert forall|j: nat|
        j < chunks && #[trigger] chunk_start(total, chunks, j) <= pos < chunk_start(
            total,
            chunks,
            j + 1,
        ) implies j == i by {
        if j < i {
            lemma_chunk_start_monotone(total, chunks, j + 1, i);
        } else if i < j {
            lemma_chunk_start_monotone(total, chunks, i + 1, j);
        }
    }
    i
}

proof fn first_chunk_past(total: nat, chunks: nat, pos: nat, k: nat) -> (i: nat)
    requires
        chunks > 0,
        pos < total,
        k < chunks,
        chunk_start(total, chunks, k) <= pos,
    ensures
        k <= i < chunks,
        chunk_start(total, chunks, i) <= pos < chunk_start(total, chunks, i + 1),
    decreases chunks - k,
{
    lemma_chunks_are_contiguous(total, chunks, k);
    if pos < chunk_start(total, chunks, k + 1) {
        k
    } else {
        first_chunk_past(total, chunks, pos, k + 1)
    }
}

/// Splits `total` positions into `num_chunks` contiguous ranges whose lengths
/// differ by at most one, longer ranges first.
pub fn divide_items(total: usize, num_chunks: usize) -> (r: Vec<ChunkRange>)
    requires
        num_chunks > 0,
    ensures
        r@.len() == num_chunks,
        forall|i: int|
            0 <= i < num_chunks ==> (#[trigger] r@[i]).start == chunk_start(
                total as nat,
                num_chunks as nat,
                i as nat,
            ) && r@[i].end == r@[i].start + chunk_len(total as nat, num_chunks as nat, i as nat),
{
    let quotient: usize = total / num_chunks;
    let remainder: usize = total % num_chunks;
    let mut out: Vec<ChunkRange> = Vec::new();
    let mut start: usize = 0;
    let mut i: usize = 0;
    while i < num_chunks
        invariant
            num_chunks > 0,
            quotient == total / num_chunks,
            remainder == total % num_chunks,
            i <= num_chunks,
            out@.len() == i,
            start == chunk_start(total as nat, num_chunks as nat, i as nat),
            start <= total,
            forall|k: int|
                0 <= k < i ==> (#[trigger] out@[k]).start == chunk_start(
                    total as nat,
                    num_chunks as nat,
                    k as nat,
                ) && out@[k].end == out@[k].start + chunk_len(
                    total as nat,
                    num_chunks as nat,
                    k as nat,
                ),
        decreases num_chunks - i,
    {
        proof {
            lemma_chunks_are_contiguous(total as nat, num_chunks as nat, i as nat);
        }
        let extra: usize = if i < remainder {
            1
        } else {
            0
        };
        let end: usize = start + quotient + extra;
        out.push(ChunkRange { start, end });
        start = end;
        i = i + 1;
    }
    out
}

/// The connection, out of `num_clients`, that serves chunk `chunk`.
pub fn client_for_chunk(chunk: usize, num_clients: usize) -> (c: usize)
    requires
        num_clients > 0,
    ensures
        c == client_of_chunk(chunk as nat, num_clients as nat),
        c < num_clients,
{
    chunk % num_clients
}

} // verus!
