//! The mathematical model of the sort: what "sorted" means, what the
//! elements of a sequence of chunks are, and the laws that every sorting
//! permutation obeys.

use vstd::prelude::*;

verus! {

/// A sequence is sorted when its elements are in non-decreasing order.
pub open spec fn sorted(s: Seq<i32>) -> bool {
    forall|i: int, j: int| 0 <= i < j < s.len() ==> #[trigger] s[i] <= #[trigger] s[j]
}

/// The elements of a sequence of chunks, laid end to end in chunk order.
pub open spec fn concat_of(chunks: Seq<Vec<i32>>) -> Seq<i32>
    decreases chunks.len(),
{
    if chunks.len() == 0 {
        Seq::empty()
    } else {
        concat_of(chunks.drop_last()) + chunks.last()@
    }
}

/// Swapping two positions of a sequence leaves its multiset of elements
/// unchanged.
pub proof fn lemma_swap_preserves_multiset(s: Seq<i32>, i: int, j: int)
    requires
        0 <= i < s.len(),
        0 <= j < s.len(),
        i != j,
    ensures
        s.update(i, s[j]).update(j, s[i]).to_multiset() == s.to_multiset(),
{
    broadcast use vstd::seq_lib::group_to_multiset_ensures;
    broadcast use vstd::multiset::group_multiset_axioms;

    assert(s.contains(s[i]));
    assert(s.contains(s[j]));
    let s1 = s.update(i, s[j]);
    assert(s1.to_multiset() == s.to_multiset().insert(s[j]).remove(s[i]));
    assert(s1[j] == s[j]);
    assert(s1.update(j, s[i]).to_multiset() == s1.to_multiset().insert(s[i]).remove(s[j]));
    assert(s1.update(j, s[i]).to_multiset() =~= s.to_multiset());
}

/// Replacing every chunk by one that holds the same multiset of elements
/// keeps the multiset of the concatenation.
pub proof fn lemma_concat_multiset_congruent(a: Seq<Vec<i32>>, b: Seq<Vec<i32>>)
    requires
        a.len() == b.len(),
        forall|k: int|
            0 <= k < a.len() ==> (#[trigger] a[k])@.to_multiset() == (#[trigger] b[k])@.to_multiset(),
    ensures
        concat_of(a).to_multiset() == concat_of(b).to_multiset(),
    decreases a.len(),
{
    broadcast use vstd::multiset::group_multiset_axioms;

    if a.len() == 0 {
        assert(concat_of(a) == Seq::<i32>::empty());
        assert(concat_of(b) == Seq::<i32>::empty());
    } else {
        lemma_concat_multiset_congruent(a.drop_last(), b.drop_last());
        vstd::seq_lib::lemma_multiset_commutative(concat_of(a.drop_last()), a.last()@);
        vstd::seq_lib::lemma_multiset_commutative(concat_of(b.drop_last()), b.last()@);
        assert(a.last() == a[a.len() - 1]);
        assert(b.last() == b[b.len() - 1]);
        assert(concat_of(a).to_multiset() =~= concat_of(b).to_multiset());
    }
}

/// Two sorted sequences that hold the same multiset of elements are equal:
/// a sorted permutation of a given sequence is unique.
pub proof fn lemma_sorted_permutation_unique(a: Seq<i32>, b: Seq<i32>)
    requires
        sorted(a),
        sorted(b),
        a.to_multiset() == b.to_multiset(),
    ensures
        a == b,
{
    let leq = (|x: i32, y: i32| x <= y);
    assert(vstd::relations::sorted_by(a, leq)) by {
        assert forall|i: int, j: int| 0 <= i < j < a.len() implies #[trigger] leq(a[i], a[j]) by {
            assert(a[i] <= a[j]);
        }
    }
    assert(vstd::relations::sorted_by(b, leq)) by {
        assert forall|i: int, j: int| 0 <= i < j < b.len() implies #[trigger] leq(b[i], b[j]) by {
            assert(b[i] <= b[j]);
        }
    }
    assert(vstd::relations::total_ordering(leq)) by {
        assert forall|x: i32| #[trigger] leq(x, x) by {}
        assert forall|x: i32, y: i32| #[trigger] leq(x, y) && #[trigger] leq(y, x) implies x == y by {}
        assert forall|x: i32, y: i32, z: i32|
            #[trigger] leq(x, y) && #[trigger] leq(y, z) implies leq(x, z) by {}
        assert forall|x: i32, y: i32| #[trigger] leq(x, y) || #[trigger] leq(y, x) by {}
    }
    vstd::seq_lib::lemma_sorted_unique(a, b, leq);
    assert(a =~= b);
}

/// The sorted order of a sequence does not depend on the worker count: any
/// two outputs that are sorted and hold the input's multiset of elements
/// coincide. In particular, sorting with more workers than elements gives
/// the very sequence that sorting with one worker per element gives.
pub proof fn lemma_worker_count_immaterial(input: Seq<i32>, out_a: Seq<i32>, out_b: Seq<i32>)
    requires
        sorted(out_a),
        out_a.to_multiset() == input.to_multiset(),
        sorted(out_b),
        out_b.to_multiset() == input.to_multiset(),
    ensures
        out_a == out_b,
{
    lemma_sorted_permutation_unique(out_a, out_b);
}

} // verus!
