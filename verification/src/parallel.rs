//! The parallel orchestrator: partitions the vector into contiguous chunks,
//! sorts the chunks concurrently on rayon's worker pool, and then merges the
//! sorted chunks left to right into the final sorted sequence.

use rayon::iter::IntoParallelRefMutIterator;
use rayon::iter::ParallelIterator;
use vstd::prelude::*;

use crate::sequential::merge_sorted_chunks;
use crate::sequential::parallel_mergesort;
use crate::specs::concat_of;
use crate::specs::lemma_concat_multiset_congruent;
use crate::specs::lemma_sorted_permutation_unique;
use crate::specs::sorted;

verus! {

/// Copies `v[from..to]` into a fresh vector.
fn subvec(v: &Vec<i32>, from: usize, to: usize) -> (r: Vec<i32>)
    requires
        from <= to <= v@.len(),
    ensures
        r@ == v@.subrange(from as int, to as int),
{
    let mut r: Vec<i32> = Vec::new();
    let mut idx: usize = from;
    while idx < to
        invariant
            from <= idx <= to <= v@.len(),
            r@ =~= v@.subrange(from as int, idx as int),
        decreases to - idx,
    {
        r.push(v[idx]);
        idx = idx + 1;
    }
    r
}

/// Partitions the vector into contiguous chunks of `chunk_size` elements;
/// the last chunk holds the remainder and may be shorter. Laid end to end,
/// the chunks give back exactly the input.
fn split_into_chunks(v: &Vec<i32>, chunk_size: usize) -> (chunks: Vec<Vec<i32>>)
    requires
        1 <= chunk_size,
    ensures
        concat_of(chunks@) == v@,
{
    let n: usize = v.len();
    let mut chunks: Vec<Vec<i32>> = Vec::new();
    let mut start: usize = 0;
    proof {
        assert(concat_of(chunks@) =~= v@.subrange(0, 0));
    }
    while start < n
        invariant
            start <= n,
            n == v@.len(),
            1 <= chunk_size,
            concat_of(chunks@) =~= v@.subrange(0, start as int),
        decreases n - start,
    {
        let end: usize = if chunk_size < n - start {
            start + chunk_size
        } else {
            n
        };
        let piece: Vec<i32> = subvec(v, start, end);
        let ghost chunks0 = chunks@;
        chunks.push(piece);
        proof {
            assert(chunks@.drop_last() =~= chunks0);
            assert(v@.subrange(0, start as int) + v@.subrange(start as int, end as int)
                =~= v@.subrange(0, end as int));
        }
        start = end;
    }
    proof {
        assert(v@.subrange(0, n as int) =~= v@);
    }
    chunks
}

/// Sorts every chunk concurrently, one task per chunk, and returns only
/// once all of them are done.
///
/// Relies on rayon's `IntoParallelRefMutIterator::par_iter_mut` and
/// `ParallelIterator::for_each`: the closure runs exactly once on each
/// element of the vector, the tasks are spread over rayon's worker pool, and
/// the call joins them all before returning. The closure only calls the
/// library's verified sequential sort, whose contract gives each element's
/// new value below.
#[verifier::external_body]
fn sort_chunks_in_parallel(chunks: &mut Vec<Vec<i32>>)
    ensures
        final(chunks)@.len() == old(chunks)@.len(),
        forall|k: int| 0 <= k < old(chunks)@.len() ==> sorted((#[trigger] final(chunks)@[k])@),
        forall|k: int|
            0 <= k < old(chunks)@.len() ==> (#[trigger] final(chunks)@[k])@.to_multiset()
                == old(chunks)@[k]@.to_multiset(),
{
    chunks.par_iter_mut().for_each(|chunk| parallel_mergesort(chunk));
}

/// Mergesort Multithreaded — sorts the vector in place using up to
/// `num_threads` concurrent chunk-sort tasks.
///
/// The vector is split into `min(num_threads, len)` near-equal contiguous
/// chunks (a worker count of zero is clamped to one), each chunk is sorted
/// concurrently, and the sorted chunks are then merged sequentially, left to
/// right by chunk index, the growing sorted prefix being two-way merged with
/// the next chunk until one sorted sequence remains; that sequence replaces
/// the vector's contents in one bulk write.
///
/// The result is the sorted permutation of the input, which is unique, so it
/// does not depend on `num_threads`; in particular a worker count above the
/// length gives the same result as one worker per element. Sorting an
/// already sorted vector leaves it unchanged.
pub fn mergesort_mt(input: &mut Vec<i32>, num_threads: usize)
    ensures
        sorted(final(input)@),
        final(input)@.to_multiset() == old(input)@.to_multiset(),
        final(input)@.len() == old(input)@.len(),
        sorted(old(input)@) ==> final(input)@ == old(input)@,
        old(input)@.len() <= 1 ==> final(input)@ == old(input)@,
{
    broadcast use vstd::seq_lib::group_to_multiset_ensures;
    broadcast use vstd::multiset::group_multiset_axioms;

    if input.len() <= 1 {
        return ;
    }
    let n: usize = input.len();
    let workers: usize = if num_threads == 0 {
        1
    } else {
        num_threads
    };
    let num_chunks: usize = if workers < n {
        workers
    } else {
        n
    };
    let chunk_size: usize = n / num_chunks;
    proof {
        assert(chunk_size >= 1) by (nonlinear_arith)
            requires
                1 <= num_chunks <= n,
                chunk_size == n / num_chunks,
        ;
    }
    let mut chunks: Vec<Vec<i32>> = split_into_chunks(&*input, chunk_size);
    let ghost chunks0 = chunks@;
    sort_chunks_in_parallel(&mut chunks);
    proof {
        lemma_concat_multiset_congruent(chunks0, chunks@);
    }
    let mut result: Vec<i32> = Vec::new();
    let mut k: usize = 0;
    proof {
        assert(chunks@.take(0) =~= Seq::<Vec<i32>>::empty());
        assert(result@ =~= concat_of(chunks@.take(0)));
    }
    while k < chunks.len()
        invariant
            k <= chunks@.len(),
            forall|t: int| 0 <= t < chunks@.len() ==> sorted((#[trigger] chunks@[t])@),
            sorted(result@),
            result@.to_multiset() == concat_of(chunks@.take(k as int)).to_multiset(),
        decreases chunks@.len() - k,
    {
        let merged: Vec<i32> = merge_sorted_chunks(&result, &chunks[k]);
        proof {
            assert(chunks@.take(k + 1).drop_last() =~= chunks@.take(k as int));
            assert(chunks@.take(k + 1).last() == chunks@[k as int]);
            vstd::seq_lib::lemma_multiset_commutative(
                concat_of(chunks@.take(k as int)),
                chunks@[k as int]@,
            );
            assert(merged@.to_multiset() =~= concat_of(chunks@.take(k + 1)).to_multiset());
        }
        result = merged;
        k = k + 1;
    }
    proof {
        assert(chunks@.take(chunks@.len() as int) =~= chunks@);
    }
    *input = result;
    proof {
        assert(input@.to_multiset() == old(input)@.to_multiset());
        vstd::seq_lib::to_multiset_len(input@);
        vstd::seq_lib::to_multiset_len(old(input)@);
        if sorted(old(input)@) {
            lemma_sorted_permutation_unique(input@, old(input)@);
        }
    }
}

} // verus!
