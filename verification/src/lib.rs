//! A parallel, in-place mergesort over vectors of integers.
//!
//! The input is partitioned into contiguous chunks, each chunk is sorted
//! concurrently by a hybrid insertion-sort/mergesort, and the sorted chunks
//! are then merged left to right into one fully sorted sequence that is
//! written back into the caller's vector.

pub mod parallel;
pub mod sequential;
pub mod specs;

pub use parallel::mergesort_mt;
pub use sequential::insertion_sort;
pub use sequential::merge_sorted_chunks;
pub use sequential::parallel_mergesort;
pub use sequential::SIZE_THRESHOLD;
pub use specs::concat_of;
pub use specs::lemma_sorted_permutation_unique;
pub use specs::lemma_worker_count_immaterial;
pub use specs::sorted;
