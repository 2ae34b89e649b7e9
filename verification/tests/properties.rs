//! Tests of the sort's stated behaviour on concrete inputs: boundary cases,
//! worker-count handling, duplicate keys, idempotence, and the pieces of the
//! sequential merge engine.

use parallel_mergesort::insertion_sort;
use parallel_mergesort::merge_sorted_chunks;
use parallel_mergesort::mergesort_mt;
use parallel_mergesort::parallel_mergesort;

#[test]
fn sort_empty_is_noop() {
    let mut input: Vec<i32> = vec![];
    mergesort_mt(&mut input, 4);
    assert_eq!(input, Vec::<i32>::new());
}

#[test]
fn sort_singleton_is_noop() {
    let mut input = vec![7];
    mergesort_mt(&mut input, 4);
    assert_eq!(input, vec![7]);
}

#[test]
fn sort_with_zero_workers_is_clamped() {
    let mut input = vec![3, 1, 2];
    mergesort_mt(&mut input, 0);
    assert_eq!(input, vec![1, 2, 3]);
}

#[test]
fn sort_with_one_worker() {
    let mut input = vec![5, 4, 3, 2, 1, 0, -1, -2, -3, -4, -5];
    mergesort_mt(&mut input, 1);
    assert_eq!(input, vec![-5, -4, -3, -2, -1, 0, 1, 2, 3, 4, 5]);
}

#[test]
fn worker_count_above_length_matches_one_per_element() {
    let mut with_excess = vec![9, -3, 4, 4, 0, 8, -7];
    let mut with_one_per_element = with_excess.clone();
    mergesort_mt(&mut with_excess, 100);
    mergesort_mt(&mut with_one_per_element, 7);
    assert_eq!(with_excess, with_one_per_element);
    assert_eq!(with_excess, vec![-7, -3, 0, 4, 4, 8, 9]);
}

#[test]
fn duplicates_keep_their_counts() {
    let mut input = vec![2, 2, 1, 3, 1, 2, 3, 1, 1, 2, 2, 1, 3];
    mergesort_mt(&mut input, 4);
    assert_eq!(input, vec![1, 1, 1, 1, 1, 2, 2, 2, 2, 2, 3, 3, 3]);
}

#[test]
fn sorting_sorted_input_leaves_it_unchanged() {
    let mut input = vec![-4, -1, 0, 0, 2, 5, 5, 9, 12, 30, 31];
    let before = input.clone();
    mergesort_mt(&mut input, 3);
    assert_eq!(input, before);
}

#[test]
fn sorting_twice_equals_sorting_once() {
    let mut once = vec![8, 3, 3, -2, 14, 0, -9, 8];
    mergesort_mt(&mut once, 3);
    let mut twice = once.clone();
    mergesort_mt(&mut twice, 5);
    assert_eq!(once, twice);
}

#[test]
fn merge_interleaves_two_sorted_runs() {
    let left = vec![1, 3, 3, 5];
    let right = vec![2, 3, 4];
    let merged = merge_sorted_chunks(&left, &right);
    assert_eq!(merged, vec![1, 2, 3, 3, 3, 4, 5]);
}

#[test]
fn merge_with_an_empty_side() {
    let left: Vec<i32> = vec![];
    let right = vec![1, 2];
    assert_eq!(merge_sorted_chunks(&left, &right), vec![1, 2]);
    assert_eq!(merge_sorted_chunks(&right, &left), vec![1, 2]);
}

#[test]
fn insertion_sort_small_region() {
    let mut input = vec![4, 1, 3, 2, 0];
    insertion_sort(&mut input);
    assert_eq!(input, vec![0, 1, 2, 3, 4]);
}

#[test]
fn sequential_mergesort_beyond_threshold() {
    let mut input = vec![12, -5, 7, 7, 0, 3, -8, 22, 1, -1, 6];
    parallel_mergesort(&mut input);
    assert_eq!(input, vec![-8, -5, -1, 0, 1, 3, 6, 7, 7, 12, 22]);
}
