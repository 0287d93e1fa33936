//! Support counting: how many transactions hold a candidate as a run.

use crate::matcher::{is_subseq_contiguous, occurs_in};
use crate::prefilter::Prefilter;
use crate::views::rows;
use vstd::prelude::*;

verus! {

/// The test "this transaction holds `candidate` as a run".
pub open spec fn supported_by(candidate: Seq<u32>) -> spec_fn(Seq<u32>) -> bool {
    |transaction: Seq<u32>| occurs_in(transaction, candidate)
}

/// The number of transactions that hold `candidate` as a run. A transaction
/// counts once, however many runs it holds.
pub open spec fn support(transactions: Seq<Seq<u32>>, candidate: Seq<u32>) -> nat {
    transactions.filter(supported_by(candidate)).len()
}

/// One more transaction adds one to the support if it holds the candidate,
/// and nothing otherwise.
pub proof fn lemma_support_push(
    transactions: Seq<Seq<u32>>,
    transaction: Seq<u32>,
    candidate: Seq<u32>,
)
    ensures
        support(transactions.push(transaction), candidate) == support(transactions, candidate) + (
        if occurs_in(transaction, candidate) {
            1nat
        } else {
            0nat
        }),
{
    transactions.lemma_filter_len_push(supported_by(candidate), transaction);
}

/// No candidate is supported by more transactions than there are.
pub proof fn lemma_support_at_most_len(transactions: Seq<Seq<u32>>, candidate: Seq<u32>)
    ensures
        support(transactions, candidate) <= transactions.len(),
{
    transactions.lemma_filter_len(supported_by(candidate));
}

/// Without transactions no candidate has any support.
pub proof fn lemma_support_of_none(candidate: Seq<u32>)
    ensures
        support(Seq::empty(), candidate) == 0,
{
    lemma_support_at_most_len(Seq::empty(), candidate);
}

/// Counts the transactions that hold `candidate` as a run, scanning them in
/// order. Where the prefilter rules a transaction out, the matcher is not
/// run on it; the count is the same with and without the prefilter.
pub fn count_support(
    transactions: &Vec<Vec<u32>>,
    prefilter: &Prefilter,
    candidate: &Vec<u32>,
) -> (count: usize)
    requires
        prefilter.describes(rows(transactions@)),
    ensures
        count == support(rows(transactions@), candidate@),
{
    let ghost all = rows(transactions@);
    let mut count: usize = 0;
    let mut t: usize = 0;
    proof {
        lemma_support_at_most_len(all.take(0), candidate@);
    }
    while t < transactions.len()
        invariant
            all == rows(transactions@),
            t <= transactions@.len(),
            prefilter.describes(all),
            count == support(all.take(t as int), candidate@),
        decreases transactions@.len() - t,
    {
        proof {
            lemma_support_push(all.take(t as int), all[t as int], candidate@);
            assert(all.take(t + 1) =~= all.take(t as int).push(all[t as int]));
            lemma_support_at_most_len(all.take(t as int), candidate@);
            if prefilter.skips(t as int, candidate@) {
                prefilter.lemma_skip_is_sound(all, t as int, candidate@);
            }
        }
        if !prefilter.can_skip(t, candidate.as_slice()) && is_subseq_contiguous(
            transactions[t].as_slice(),
            candidate.as_slice(),
        ) {
            count += 1;
        }
        t += 1;
    }
    assert(all.take(t as int) =~= all);
    count
}

} // verus!
