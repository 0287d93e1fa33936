use gsp_support::prefilter::Prefilter;
use gsp_support::support::count_support;

fn count(transactions: &Vec<Vec<u32>>, candidate: &Vec<u32>, enabled: bool) -> usize {
    let prefilter = Prefilter::new(transactions, enabled);
    count_support(transactions, &prefilter, candidate)
}

#[test]
fn support_is_the_number_of_transactions_with_a_run() {
    let transactions = vec![vec![1, 2, 3], vec![2, 3, 4], vec![1, 3, 2], vec![2, 3]];
    assert_eq!(count(&transactions, &vec![2, 3], false), 3);
    assert_eq!(count(&transactions, &vec![1, 2], false), 1);
    assert_eq!(count(&transactions, &vec![3], false), 4);
    assert_eq!(count(&transactions, &vec![4, 2], false), 0);
}

#[test]
fn a_transaction_counts_once_however_many_runs_it_holds() {
    let transactions = vec![vec![1, 2, 1, 2, 1, 2], vec![1, 2]];
    assert_eq!(count(&transactions, &vec![1, 2], false), 2);
    assert_eq!(count(&transactions, &vec![1, 2], true), 2);
}

#[test]
fn empty_candidate_has_no_support() {
    let transactions = vec![vec![1, 2], vec![], vec![3]];
    assert_eq!(count(&transactions, &vec![], false), 0);
    assert_eq!(count(&transactions, &vec![], true), 0);
}

#[test]
fn no_transactions_give_no_support() {
    let transactions: Vec<Vec<u32>> = vec![];
    assert_eq!(count(&transactions, &vec![1], false), 0);
    assert_eq!(count(&transactions, &vec![1], true), 0);
}

#[test]
fn prefilter_leaves_every_count_unchanged() {
    let transactions = vec![
        vec![1, 2, 3, 4],
        vec![4, 3, 2, 1],
        vec![2, 2, 3],
        vec![],
        vec![3, 4, 1, 2],
        vec![5],
    ];
    let candidates = vec![
        vec![1, 2],
        vec![2, 3],
        vec![3, 4],
        vec![4, 1],
        vec![2, 1],
        vec![5],
        vec![6],
        vec![1, 3],
        vec![],
        vec![1, 2, 3, 4],
    ];
    let expected: Vec<usize> = vec![2, 2, 2, 1, 1, 1, 0, 0, 0, 1];
    for (candidate, want) in candidates.iter().zip(expected.iter()) {
        assert_eq!(count(&transactions, candidate, false), *want);
        assert_eq!(count(&transactions, candidate, true), *want);
    }
}
