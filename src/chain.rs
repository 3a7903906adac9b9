use vstd::prelude::*;
use vstd::seq_lib::lemma_flatten_concat;

verus! {

/// The handle of the chunk at position `j` of `chain`: its slot plus one, or
/// 0 (no chunk) past either end.
pub open spec fn handle_at(chain: Seq<usize>, j: int) -> usize {
    if 0 <= j < chain.len() {
        (chain[j] + 1) as usize
    } else {
        0
    }
}

/// Number of elements held by the first `k` chunks.
pub open spec fn prefix_len<T>(chunks: Seq<Seq<T>>, k: int) -> int {
    chunks.subrange(0, k).flatten().len() as int
}

/// The XOR facts that walking a chain rests on.
pub proof fn lemma_xor(a: usize, b: usize)
    ensures
        (a ^ b) ^ a == b,
        (a ^ b) ^ b == a,
        a ^ 0 == a,
        0 ^ a == a,
        a ^ b == b ^ a,
{
    assert((a ^ b) ^ a == b) by (bit_vector);
    assert((a ^ b) ^ b == a) by (bit_vector);
    assert(a ^ 0 == a) by (bit_vector);
    assert(0 ^ a == a) by (bit_vector);
    assert(a ^ b == b ^ a) by (bit_vector);
}

/// The elements of a chain of chunks, cut around chunk `k`.
pub proof fn lemma_flatten_around<T>(chunks: Seq<Seq<T>>, k: int)
    requires
        0 <= k < chunks.len(),
    ensures
        chunks.flatten() == chunks.subrange(0, k).flatten() + chunks[k] + chunks.subrange(
            k + 1,
            chunks.len() as int,
        ).flatten(),
{
    let a = chunks.subrange(0, k);
    let b = chunks.subrange(k + 1, chunks.len() as int);
    let one = seq![chunks[k]];
    assert(chunks =~= a + (one + b));
    lemma_flatten_concat(a, one + b);
    lemma_flatten_concat(one, b);
    one.lemma_flatten_singleton();
    assert(a.flatten() + (chunks[k] + b.flatten()) =~= a.flatten() + chunks[k] + b.flatten());
}

/// The elements before chunk `k + 1` are those before chunk `k` and those of chunk `k`.
pub proof fn lemma_prefix_step<T>(chunks: Seq<Seq<T>>, k: int)
    requires
        0 <= k < chunks.len(),
    ensures
        prefix_len(chunks, k + 1) == prefix_len(chunks, k) + chunks[k].len(),
        chunks.subrange(0, k + 1).flatten() == chunks.subrange(0, k).flatten() + chunks[k],
{
    assert(chunks.subrange(0, k + 1) =~= chunks.subrange(0, k).push(chunks[k]));
    chunks.subrange(0, k).lemma_flatten_push(chunks[k]);
}

pub proof fn lemma_prefix_ends<T>(chunks: Seq<Seq<T>>)
    ensures
        prefix_len(chunks, 0) == 0,
        prefix_len(chunks, chunks.len() as int) == chunks.flatten().len(),
{
    assert(chunks.subrange(0, 0) =~= Seq::<Seq<T>>::empty());
    assert(chunks.subrange(0, chunks.len() as int) =~= chunks);
}

/// Element `offset` of chunk `k` is element `prefix_len(chunks, k) + offset` of the chain.
pub proof fn lemma_flatten_index<T>(chunks: Seq<Seq<T>>, k: int, offset: int)
    requires
        0 <= k < chunks.len(),
        0 <= offset < chunks[k].len(),
    ensures
        prefix_len(chunks, k) + offset < chunks.flatten().len(),
        chunks.flatten()[prefix_len(chunks, k) + offset] == chunks[k][offset],
{
    lemma_flatten_around(chunks, k);
}

/// Replacing chunk `k` replaces its stretch of the chain.
pub proof fn lemma_flatten_update<T>(chunks: Seq<Seq<T>>, k: int, c: Seq<T>)
    requires
        0 <= k < chunks.len(),
    ensures
        chunks.update(k, c).flatten() == chunks.subrange(0, k).flatten() + c + chunks.subrange(
            k + 1,
            chunks.len() as int,
        ).flatten(),
        prefix_len(chunks.update(k, c), k) == prefix_len(chunks, k),
{
    let u = chunks.update(k, c);
    lemma_flatten_around(u, k);
    assert(u.subrange(0, k) =~= chunks.subrange(0, k));
    assert(u.subrange(k + 1, u.len() as int) =~= chunks.subrange(k + 1, chunks.len() as int));
}

/// A chunk threaded in at position `p` puts its elements there.
pub proof fn lemma_flatten_insert<T>(chunks: Seq<Seq<T>>, p: int, c: Seq<T>)
    requires
        0 <= p <= chunks.len(),
    ensures
        chunks.insert(p, c).flatten() == chunks.subrange(0, p).flatten() + c + chunks.subrange(
            p,
            chunks.len() as int,
        ).flatten(),
        chunks.flatten() == chunks.subrange(0, p).flatten() + chunks.subrange(
            p,
            chunks.len() as int,
        ).flatten(),
{
    let u = chunks.insert(p, c);
    lemma_flatten_around(u, p);
    assert(u.subrange(0, p) =~= chunks.subrange(0, p));
    assert(u.subrange(p + 1, u.len() as int) =~= chunks.subrange(p, chunks.len() as int));
    assert(chunks =~= chunks.subrange(0, p) + chunks.subrange(p, chunks.len() as int));
    lemma_flatten_concat(chunks.subrange(0, p), chunks.subrange(p, chunks.len() as int));
}

/// Dropping chunk `p` drops its stretch of the chain.
pub proof fn lemma_flatten_remove<T>(chunks: Seq<Seq<T>>, p: int)
    requires
        0 <= p < chunks.len(),
    ensures
        chunks.remove(p).flatten() == chunks.subrange(0, p).flatten() + chunks.subrange(
            p + 1,
            chunks.len() as int,
        ).flatten(),
{
    let u = chunks.remove(p);
    assert(u =~= chunks.subrange(0, p) + chunks.subrange(p + 1, chunks.len() as int));
    lemma_flatten_concat(chunks.subrange(0, p), chunks.subrange(p + 1, chunks.len() as int));
}

/// Inserting into chunk `j` at `q` inserts into the chain at the matching index.
pub proof fn lemma_flatten_insert_at<T>(chunks: Seq<Seq<T>>, j: int, q: int, v: T)
    requires
        0 <= j < chunks.len(),
        0 <= q <= chunks[j].len(),
    ensures
        chunks.update(j, chunks[j].insert(q, v)).flatten() == chunks.flatten().insert(
            prefix_len(chunks, j) + q,
            v,
        ),
{
    lemma_flatten_around(chunks, j);
    lemma_flatten_update(chunks, j, chunks[j].insert(q, v));
    let pre = chunks.subrange(0, j).flatten();
    let post = chunks.subrange(j + 1, chunks.len() as int).flatten();
    assert(pre + chunks[j].insert(q, v) + post =~= (pre + chunks[j] + post).insert(pre.len() + q, v));
}

/// Removing from chunk `j` at `q` removes from the chain at the matching index.
pub proof fn lemma_flatten_remove_at<T>(chunks: Seq<Seq<T>>, j: int, q: int)
    requires
        0 <= j < chunks.len(),
        0 <= q < chunks[j].len(),
    ensures
        chunks.update(j, chunks[j].remove(q)).flatten() == chunks.flatten().remove(
            prefix_len(chunks, j) + q,
        ),
{
    lemma_flatten_around(chunks, j);
    lemma_flatten_update(chunks, j, chunks[j].remove(q));
    let pre = chunks.subrange(0, j).flatten();
    let post = chunks.subrange(j + 1, chunks.len() as int).flatten();
    assert(pre + chunks[j].remove(q) + post =~= (pre + chunks[j] + post).remove(pre.len() + q));
}

/// Cutting chunk `k` in two at `at` leaves the elements of the chain as they were.
pub proof fn lemma_flatten_split_chunk<T>(chunks: Seq<Seq<T>>, k: int, at: int)
    requires
        0 <= k < chunks.len(),
        0 <= at <= chunks[k].len(),
    ensures
        ({
            let c = chunks[k];
            let u = chunks.update(k, c.subrange(0, at)).insert(k + 1, c.subrange(at, c.len() as int));
            &&& u.flatten() == chunks.flatten()
            &&& prefix_len(u, k) == prefix_len(chunks, k)
            &&& prefix_len(u, k + 1) == prefix_len(chunks, k) + at
        }),
{
    let c = chunks[k];
    let lo = c.subrange(0, at);
    let hi = c.subrange(at, c.len() as int);
    let u1 = chunks.update(k, lo);
    let u = u1.insert(k + 1, hi);
    lemma_flatten_around(chunks, k);
    lemma_flatten_insert(u1, k + 1, hi);
    assert(u1.subrange(0, k + 1) =~= chunks.subrange(0, k).push(lo));
    chunks.subrange(0, k).lemma_flatten_push(lo);
    assert(u1.subrange(k + 1, u1.len() as int) =~= chunks.subrange(k + 1, chunks.len() as int));
    assert(lo + hi =~= c);
    let pre = chunks.subrange(0, k).flatten();
    let post = chunks.subrange(k + 1, chunks.len() as int).flatten();
    assert(u.flatten() =~= chunks.flatten());
    assert(u.subrange(0, k) =~= chunks.subrange(0, k));
    assert(u.subrange(0, k + 1) =~= chunks.subrange(0, k).push(lo));
}

/// Replacing a chunk by one of the same length moves no element to another index.
pub proof fn lemma_prefix_same_len<T>(chunks: Seq<Seq<T>>, k: int, c: Seq<T>, j: int)
    requires
        0 <= k < chunks.len(),
        0 <= j <= chunks.len(),
        c.len() == chunks[k].len(),
    ensures
        prefix_len(chunks.update(k, c), j) == prefix_len(chunks, j),
{
    let u = chunks.update(k, c);
    if j <= k {
        assert(u.subrange(0, j) =~= chunks.subrange(0, j));
    } else {
        let a = chunks.subrange(0, j);
        assert(u.subrange(0, j) =~= a.update(k, c));
        lemma_flatten_around(a, k);
        lemma_flatten_update(a, k, c);
    }
}

} // verus!
