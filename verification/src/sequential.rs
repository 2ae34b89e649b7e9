//! The sequential merge engine: a hybrid insertion-sort/mergesort over one
//! vector, and the two-way merge of two sorted vectors.

use vstd::prelude::*;

use crate::specs::lemma_swap_preserves_multiset;
use crate::specs::sorted;

verus! {

/// Regions at most this long are sorted by insertion sort; longer regions
/// are split at the midpoint and merged. The crossover may be tuned without
/// affecting correctness.
pub const SIZE_THRESHOLD: usize = 5;

/// Insertion sort: for each position from left to right, the element there
/// is swapped leftwards while it is smaller than its left neighbour. Sorts
/// the whole vector in place.
pub fn insertion_sort(input: &mut Vec<i32>)
    ensures
        sorted(final(input)@),
        final(input)@.to_multiset() == old(input)@.to_multiset(),
        final(input)@.len() == old(input)@.len(),
{
    let n: usize = input.len();
    if n <= 1 {
        return ;
    }
    let mut i: usize = 1;
    while i < n
        invariant
            1 <= i <= n,
            n == input@.len(),
            input@.to_multiset() == old(input)@.to_multiset(),
            forall|k: int, l: int| 0 <= k < l < i ==> #[trigger] input@[k] <= #[trigger] input@[l],
        decreases n - i,
    {
        let mut j: usize = i;
        while j > 0 && input[j - 1] > input[j]
            invariant
                0 <= j <= i < n,
                n == input@.len(),
                input@.to_multiset() == old(input)@.to_multiset(),
                forall|k: int, l: int|
                    0 <= k < l <= i && l != j ==> #[trigger] input@[k] <= #[trigger] input@[l],
            decreases j,
        {
            let below: i32 = input[j - 1];
            let here: i32 = input[j];
            let ghost s0 = input@;
            input[j - 1] = here;
            input[j] = below;
            proof {
                lemma_swap_preserves_multiset(s0, j - 1, j as int);
                assert(input@ == s0.update(j - 1, s0[j as int]).update(j as int, s0[j - 1]));
            }
            j = j - 1;
        }
        proof {
            assert forall|k: int, l: int| 0 <= k < l <= i implies #[trigger] input@[k]
                <= #[trigger] input@[l] by {
                if l == j {
                    assert(input@[j - 1] <= input@[j as int]);
                    if k < j - 1 {
                        assert(input@[k] <= input@[j - 1]);
                    }
                }
            }
        }
        i = i + 1;
    }
}

/// Copies `src[from..]` onto the end of `dst`.
fn push_tail(dst: &mut Vec<i32>, src: &Vec<i32>, from: usize)
    requires
        from <= src@.len(),
    ensures
        final(dst)@ == old(dst)@ + src@.subrange(from as int, src@.len() as int),
{
    let mut idx: usize = from;
    while idx < src.len()
        invariant
            from <= idx <= src@.len(),
            dst@ =~= old(dst)@ + src@.subrange(from as int, idx as int),
        decreases src@.len() - idx,
    {
        dst.push(src[idx]);
        idx = idx + 1;
    }
}

/// Taking one more element onto a prefix of a sequence gives the next
/// prefix.
proof fn lemma_prefix_push(s: Seq<i32>, n: int)
    requires
        0 <= n < s.len(),
    ensures
        s.subrange(0, n).push(s[n]) =~= s.subrange(0, n + 1),
{
}

/// Two-way merge of two sorted vectors into a fresh sorted vector, by the
/// classic two-pointer linear pass. The left head is taken only while it is
/// strictly smaller than the right head, so on equal heads the right element
/// is emitted first; once one side is exhausted, the rest of the other side
/// is appended wholesale.
pub fn merge_sorted_chunks(chunk1: &Vec<i32>, chunk2: &Vec<i32>) -> (merged: Vec<i32>)
    requires
        sorted(chunk1@),
        sorted(chunk2@),
    ensures
        sorted(merged@),
        merged@.to_multiset() == chunk1@.to_multiset().add(chunk2@.to_multiset()),
        merged@.len() == chunk1@.len() + chunk2@.len(),
{
    broadcast use vstd::seq_lib::group_to_multiset_ensures;
    broadcast use vstd::multiset::group_multiset_axioms;

    let mut merged: Vec<i32> = Vec::new();
    let mut i: usize = 0;
    let mut j: usize = 0;
    proof {
        assert(chunk1@.subrange(0, 0) + chunk2@.subrange(0, 0) =~= Seq::<i32>::empty());
        assert(merged@ =~= Seq::<i32>::empty());
    }
    while i < chunk1.len() && j < chunk2.len()
        invariant
            i <= chunk1@.len(),
            j <= chunk2@.len(),
            sorted(chunk1@),
            sorted(chunk2@),
            sorted(merged@),
            merged@.len() == i + j,
            merged@.to_multiset() == (chunk1@.subrange(0, i as int) + chunk2@.subrange(
                0,
                j as int,
            )).to_multiset(),
            forall|k: int|
                0 <= k < merged@.len() && i < chunk1@.len() ==> #[trigger] merged@[k]
                    <= chunk1@[i as int],
            forall|k: int|
                0 <= k < merged@.len() && j < chunk2@.len() ==> #[trigger] merged@[k]
                    <= chunk2@[j as int],
        decreases chunk1@.len() - i + chunk2@.len() - j,
    {
        let ghost pre1 = chunk1@.subrange(0, i as int);
        let ghost pre2 = chunk2@.subrange(0, j as int);
        let ghost m0 = merged@;
        if chunk1[i] < chunk2[j] {
            merged.push(chunk1[i]);
            proof {
                broadcast use vstd::multiset::group_multiset_axioms;

                let v: i32 = chunk1@[i as int];
                vstd::seq_lib::to_multiset_build(m0, v);
                vstd::seq_lib::to_multiset_build(pre1, v);
                lemma_prefix_push(chunk1@, i as int);
                vstd::seq_lib::lemma_multiset_commutative(pre1, pre2);
                vstd::seq_lib::lemma_multiset_commutative(chunk1@.subrange(0, i + 1), pre2);
                assert(merged@.to_multiset() =~= (chunk1@.subrange(0, i + 1)
                    + chunk2@.subrange(0, j as int)).to_multiset());
            }
            i = i + 1;
        } else {
            merged.push(chunk2[j]);
            proof {
                broadcast use vstd::multiset::group_multiset_axioms;

                let v: i32 = chunk2@[j as int];
                vstd::seq_lib::to_multiset_build(m0, v);
                vstd::seq_lib::to_multiset_build(pre2, v);
                lemma_prefix_push(chunk2@, j as int);
                vstd::seq_lib::lemma_multiset_commutative(pre1, pre2);
                vstd::seq_lib::lemma_multiset_commutative(pre1, chunk2@.subrange(0, j + 1));
                assert(merged@.to_multiset() =~= (chunk1@.subrange(0, i as int)
                    + chunk2@.subrange(0, j + 1)).to_multiset());
            }
            j = j + 1;
        }
    }
    let ghost body = merged@;
    if i < chunk1.len() {
        push_tail(&mut merged, chunk1, i);
        proof {
            let tail = chunk1@.subrange(i as int, chunk1@.len() as int);
            assert(chunk2@.subrange(0, j as int) =~= chunk2@);
            assert(chunk1@.subrange(0, i as int) + tail =~= chunk1@);
            vstd::seq_lib::lemma_multiset_commutative(body, tail);
            vstd::seq_lib::lemma_multiset_commutative(chunk1@.subrange(0, i as int), chunk2@);
            vstd::seq_lib::lemma_multiset_commutative(chunk1@.subrange(0, i as int), tail);
            assert(merged@.to_multiset() =~= chunk1@.to_multiset().add(chunk2@.to_multiset()));
            assert forall|k: int, l: int| 0 <= k < l < merged@.len() implies #[trigger] merged@[k]
                <= #[trigger] merged@[l] by {
                if k < body.len() && l >= body.len() {
                    assert(merged@[l] == chunk1@[i + (l - body.len())]);
                    assert(body[k] <= chunk1@[i as int]);
                }
            }
        }
    } else {
        push_tail(&mut merged, chunk2, j);
        proof {
            let tail = chunk2@.subrange(j as int, chunk2@.len() as int);
            assert(chunk1@.subrange(0, i as int) =~= chunk1@);
            assert(chunk2@.subrange(0, j as int) + tail =~= chunk2@);
            vstd::seq_lib::lemma_multiset_commutative(body, tail);
            vstd::seq_lib::lemma_multiset_commutative(chunk1@, chunk2@.subrange(0, j as int));
            vstd::seq_lib::lemma_multiset_commutative(chunk2@.subrange(0, j as int), tail);
            assert(merged@.to_multiset() =~= chunk1@.to_multiset().add(chunk2@.to_multiset()));
            assert forall|k: int, l: int| 0 <= k < l < merged@.len() implies #[trigger] merged@[k]
                <= #[trigger] merged@[l] by {
                if k < body.len() && l >= body.len() {
                    assert(merged@[l] == chunk2@[j + (l - body.len())]);
                    assert(body[k] <= chunk2@[j as int]);
                }
            }
        }
    }
    merged
}

/// The hybrid mergesort that one worker runs on its chunk: a region at most
/// `SIZE_THRESHOLD` long is insertion sorted; a longer one is split at the
/// midpoint, both halves are sorted recursively, and the sorted halves are
/// merged into a buffer that then replaces the region in one bulk write.
pub fn parallel_mergesort(input: &mut Vec<i32>)
    ensures
        sorted(final(input)@),
        final(input)@.to_multiset() == old(input)@.to_multiset(),
        final(input)@.len() == old(input)@.len(),
    decreases input@.len(),
{
    broadcast use vstd::seq_lib::group_to_multiset_ensures;
    broadcast use vstd::multiset::group_multiset_axioms;

    let n: usize = input.len();
    if n <= SIZE_THRESHOLD {
        insertion_sort(input);
        return ;
    }
    let mid: usize = n / 2;
    let mut right: Vec<i32> = input.split_off(mid);
    proof {
        assert(old(input)@.subrange(0, mid as int) + old(input)@.subrange(
            mid as int,
            old(input)@.len() as int,
        ) =~= old(input)@);
        vstd::seq_lib::lemma_multiset_commutative(
            old(input)@.subrange(0, mid as int),
            old(input)@.subrange(mid as int, old(input)@.len() as int),
        );
    }
    parallel_mergesort(input);
    parallel_mergesort(&mut right);
    let merged: Vec<i32> = merge_sorted_chunks(&*input, &right);
    *input = merged;
}

} // verus!
