use parbench::merge_sort::{
    is_sorted, levels_are_valid, max_levels, prepare, sort, MergeSort, SortError, BENCH_INPUT_LEN,
};

#[test]
fn empty_input_sorts_trivially_at_any_depth() {
    let mut v: Vec<u64> = vec![];
    assert_eq!(sort(&mut v, 0), Ok(()));
    assert!(v.is_empty());
    let mut w: Vec<u64> = vec![];
    assert_eq!(sort(&mut w, 17), Ok(()));
    assert!(w.is_empty());
}

#[test]
fn singleton_is_returned_unchanged() {
    for levels in [0usize, 1, 5] {
        let mut v: Vec<u64> = vec![42];
        assert_eq!(sort(&mut v, levels), Ok(()));
        assert_eq!(v, vec![42]);
    }
}

#[test]
fn duplicates_are_kept() {
    let mut v: Vec<u64> = vec![3, 1, 3, 2, 3];
    assert_eq!(sort(&mut v, 1), Ok(()));
    assert_eq!(v, vec![1, 2, 3, 3, 3]);
}

#[test]
fn odd_length_split_merges_unequal_halves() {
    let mut v: Vec<u64> = vec![5, 4, 3, 2, 1];
    assert_eq!(sort(&mut v, 1), Ok(()));
    assert_eq!(v, vec![1, 2, 3, 4, 5]);
}

#[test]
fn oversized_depth_is_rejected_and_input_untouched() {
    let mut v: Vec<u64> = vec![4, 3, 2, 1];
    assert_eq!(sort(&mut v, 10), Err(SortError::InvalidConfiguration));
    assert_eq!(v, vec![4, 3, 2, 1]);
}

#[test]
fn depth_never_changes_the_result() {
    let input: Vec<u64> = (0..64u64).map(|i| (i * 7919) % 101).collect();
    let mut expected = input.clone();
    assert_eq!(sort(&mut expected, 0), Ok(()));
    for levels in 1..=max_levels(input.len()) {
        let mut v = input.clone();
        assert_eq!(sort(&mut v, levels), Ok(()));
        assert_eq!(v, expected);
    }
}

#[test]
fn sorting_a_sorted_sequence_changes_nothing() {
    let input: Vec<u64> = vec![1, 2, 2, 3, 5, 8, 13, 21];
    for levels in 0..=max_levels(input.len()) {
        let mut v = input.clone();
        assert_eq!(sort(&mut v, levels), Ok(()));
        assert_eq!(v, input);
    }
}

#[test]
fn result_is_a_sorted_permutation() {
    let input: Vec<u64> = (0..100u64).map(|i| (i * 6101 + 17) % 257).collect();
    let mut reference = input.clone();
    reference.sort();
    for levels in [0usize, 3, 4] {
        let mut v = input.clone();
        assert_eq!(sort(&mut v, levels), Ok(()));
        assert!(is_sorted(&v));
        assert_eq!(v, reference);
    }
}

#[test]
fn odd_depths_land_back_in_the_callers_sequence() {
    let input: Vec<u64> = vec![9, 7, 5, 3, 1, 8, 6, 4, 2, 0];
    let mut reference = input.clone();
    reference.sort();
    for levels in [1usize, 3] {
        let mut v = input.clone();
        assert_eq!(sort(&mut v, levels), Ok(()));
        assert_eq!(v, reference);
    }
}

#[test]
fn max_levels_is_the_ceiling_log() {
    assert_eq!(max_levels(0), 0);
    assert_eq!(max_levels(1), 0);
    assert_eq!(max_levels(2), 1);
    assert_eq!(max_levels(3), 2);
    assert_eq!(max_levels(4), 2);
    assert_eq!(max_levels(5), 3);
    assert_eq!(max_levels(8), 3);
    assert_eq!(max_levels(9), 4);
}

#[test]
fn validity_matches_the_feasible_depth() {
    assert!(levels_are_valid(2, 4));
    assert!(!levels_are_valid(3, 4));
    assert!(!levels_are_valid(10, 4));
    assert!(levels_are_valid(0, 0));
    assert!(levels_are_valid(7, 1));
    assert!(levels_are_valid(3, 5));
    assert!(!levels_are_valid(4, 5));
}

#[test]
fn is_sorted_checks_ascending_order() {
    assert!(is_sorted(&vec![]));
    assert!(is_sorted(&vec![5]));
    assert!(is_sorted(&vec![1, 2, 2, 3]));
    assert!(!is_sorted(&vec![2, 1]));
    assert!(!is_sorted(&vec![1, 3, 2, 4]));
}

#[test]
fn prepare_draws_the_asked_number_of_elements() {
    assert_eq!(prepare(0).len(), 0);
    assert_eq!(prepare(100).len(), 100);
}

#[test]
fn benchmark_lifecycle_runs_to_completion() {
    let mut subject = MergeSort::new(8);
    assert_eq!(subject.name(), "MergeSort");
    subject.setup();
    assert!(levels_are_valid(8, BENCH_INPUT_LEN));
    subject.execute();
    subject.teardown();
}
