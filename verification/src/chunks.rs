//! Cutting a run of items into consecutive chunks of bounded size.

use vstd::arithmetic::div_mod::{lemma_fundamental_div_mod, lemma_mod_bound};
use vstd::arithmetic::mul::lemma_mul_inequality;
use vstd::prelude::*;

verus! {

/// The smaller of two numbers.
pub open spec fn least(a: int, b: int) -> int {
    if a <= b {
        a
    } else {
        b
    }
}

/// How many chunks of at most `size` items a run of `len` items is cut into:
/// `len / size` rounded up, and one (empty) chunk for an empty run.
pub open spec fn chunk_count(len: nat, size: nat) -> nat {
    if len == 0 {
        1
    } else {
        ((len - 1) / (size as int) + 1) as nat
    }
}

/// Chunk `i` of `items`: the items from `i * size` up to `(i + 1) * size`, as
/// far as there are any.
pub open spec fn chunk<T>(items: Seq<T>, size: nat, i: int) -> Seq<T> {
    items.subrange(least(i * size, items.len() as int), least((i + 1) * size, items.len() as int))
}

/// The first `n` chunks of `items`, one after the other.
pub open spec fn chunks_joined<T>(items: Seq<T>, size: nat, n: nat) -> Seq<T>
    decreases n,
{
    if n == 0 {
        Seq::empty()
    } else {
        chunks_joined(items, size, (n - 1) as nat) + chunk(items, size, n - 1)
    }
}

/// The number of chunks is the length divided by the size, rounded up: the
/// chunks before the last are full and the last one reaches the end.
pub proof fn lemma_chunk_count(len: nat, size: nat)
    requires
        size > 0,
        len > 0,
    ensures
        chunk_count(len, size) >= 1,
        (chunk_count(len, size) - 1) * size < len <= chunk_count(len, size) * size,
        len <= size ==> chunk_count(len, size) == 1,
{
    let q = (len - 1) / (size as int);
    let r = (len - 1) % (size as int);
    lemma_fundamental_div_mod(len - 1, size as int);
    lemma_mod_bound(len - 1, size as int);
    assert(len - 1 == size * q + r);
    assert(q >= 0) by (nonlinear_arith)
        requires
            len - 1 == size * q + r,
            0 <= r < size,
            len >= 1,
    ;
    assert(q * size == size * q) by (nonlinear_arith);
    assert((q + 1) * size == size * q + size) by (nonlinear_arith);
    if len <= size {
        assert(q == 0) by (nonlinear_arith)
            requires
                len - 1 == size * q + r,
                0 <= r,
                q >= 0,
                len <= size,
                size > 0,
        ;
    }
}

/// Where chunk `i` starts and ends, for a chunk that exists.
pub proof fn lemma_chunk_bounds(len: nat, size: nat, i: int)
    requires
        size > 0,
        len > 0,
        0 <= i < chunk_count(len, size),
    ensures
        0 <= i * size < len,
        i + 1 < chunk_count(len, size) ==> (i + 1) * size < len,
        i + 1 == chunk_count(len, size) ==> (i + 1) * size >= len,
{
    let count = chunk_count(len, size) as int;
    lemma_chunk_count(len, size);
    lemma_mul_inequality(i, count - 1, size as int);
    lemma_mul_inequality(0, i, size as int);
    if i + 1 < count {
        lemma_mul_inequality(i + 1, count - 1, size as int);
    }
}

/// The first `n` chunks make up the first `n * size` items, as far as there
/// are any.
pub proof fn lemma_chunks_joined<T>(items: Seq<T>, size: nat, n: nat)
    requires
        size > 0,
    ensures
        chunks_joined(items, size, n) == items.subrange(
            0,
            least((n * size) as int, items.len() as int),
        ),
    decreases n,
{
    if n == 0 {
        assert(chunks_joined(items, size, n) =~= items.subrange(0, 0));
    } else {
        lemma_chunks_joined(items, size, (n - 1) as nat);
        assert((n - 1) * size >= 0 && n * size >= (n - 1) * size) by (nonlinear_arith)
            requires
                n >= 1,
                size > 0,
        ;
        let lo = least((n - 1) * size, items.len() as int);
        let hi = least((n * size) as int, items.len() as int);
        assert(items.subrange(0, lo) + items.subrange(lo, hi) =~= items.subrange(0, hi));
    }
}

/// All the chunks, one after the other, are the run itself.
pub proof fn lemma_chunks_cover<T>(items: Seq<T>, size: nat)
    requires
        size > 0,
    ensures
        chunks_joined(items, size, chunk_count(items.len(), size)) == items,
{
    let count = chunk_count(items.len(), size);
    lemma_chunks_joined(items, size, count);
    if items.len() > 0 {
        lemma_chunk_count(items.len(), size);
    }
    assert(count * size >= 0) by (nonlinear_arith)
        requires
            count >= 0,
            size > 0,
    ;
    assert(items.subrange(0, items.len() as int) =~= items);
}

/// No chunk holds more than `size` items, and while there are items every
/// chunk holds at least one.
pub proof fn lemma_chunk_len<T>(items: Seq<T>, size: nat, i: int)
    requires
        size > 0,
        0 <= i < chunk_count(items.len(), size),
    ensures
        chunk(items, size, i).len() <= size,
        items.len() > 0 ==> chunk(items, size, i).len() >= 1,
{
    assert((i + 1) * size == i * size + size) by (nonlinear_arith);
    assert(i * size >= 0) by (nonlinear_arith)
        requires
            i >= 0,
            size > 0,
    ;
    if items.len() > 0 {
        lemma_chunk_bounds(items.len(), size, i);
    }
}

} // verus!
