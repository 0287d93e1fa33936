//! The aggregator: the support of every candidate, computed on a worker
//! pool, and the candidates that reach the minimum support.

use crate::filtering::{lemma_filter_keeps_all, lemma_filter_selects, strictly_increasing};
use crate::prefilter::Prefilter;
use crate::support::{count_support, lemma_support_of_none, support};
use crate::views::{as_nats, entries, rows};
use rayon::iter::{IntoParallelRefIterator, ParallelIterator};
use vstd::prelude::*;

verus! {

/// Each candidate paired with a count, position by position.
pub open spec fn paired(candidates: Seq<Seq<u32>>, counts: Seq<nat>) -> Seq<(Seq<u32>, nat)> {
    Seq::new(candidates.len(), |c: int| (candidates[c], counts[c]))
}

/// The support of each candidate, position by position.
pub open spec fn supports(transactions: Seq<Seq<u32>>, candidates: Seq<Seq<u32>>) -> Seq<nat> {
    Seq::new(candidates.len(), |c: int| support(transactions, candidates[c]))
}

/// The test "this entry's count is at least `min_support`".
pub open spec fn reaches(min_support: nat) -> spec_fn((Seq<u32>, nat)) -> bool {
    |entry: (Seq<u32>, nat)| entry.1 >= min_support
}

/// The candidates whose support is at least `min_support`, each with its
/// support, in the order of `candidates`.
pub open spec fn frequent(
    transactions: Seq<Seq<u32>>,
    candidates: Seq<Seq<u32>>,
    min_support: nat,
) -> Seq<(Seq<u32>, nat)> {
    paired(candidates, supports(transactions, candidates)).filter(reaches(min_support))
}

/// Keeps the candidates whose count is at least `min_support`, each with
/// its count, in the order of `candidates`.
pub fn retain_frequent(candidates: &Vec<Vec<u32>>, counts: &Vec<usize>, min_support: usize) -> (out:
    Vec<(Vec<u32>, usize)>)
    requires
        counts@.len() == candidates@.len(),
    ensures
        entries(out@) == paired(rows(candidates@), as_nats(counts@)).filter(
            reaches(min_support as nat),
        ),
{
    let ghost all = paired(rows(candidates@), as_nats(counts@));
    let ghost keep = reaches(min_support as nat);
    let mut out: Vec<(Vec<u32>, usize)> = Vec::new();
    let mut c: usize = 0;
    proof {
        all.take(0).lemma_filter_len(keep);
    }
    while c < candidates.len()
        invariant
            all == paired(rows(candidates@), as_nats(counts@)),
            keep == reaches(min_support as nat),
            counts@.len() == candidates@.len(),
            c <= candidates@.len(),
            entries(out@) == all.take(c as int).filter(keep),
        decreases candidates@.len() - c,
    {
        proof {
            all.take(c as int).lemma_filter_push(all[c as int], keep);
            assert(all.take(c + 1) =~= all.take(c as int).push(all[c as int]));
        }
        if counts[c] >= min_support {
            let candidate = candidates[c].clone();
            out.push((candidate, counts[c]));
        }
        c += 1;
    }
    assert(all.take(c as int) =~= all);
    out
}

/// Runs `count` on every candidate on rayon's worker pool, through
/// `par_iter`, `map` and `collect`, and hands back the results in the order
/// of the candidates.
///
/// Trusted: rayon's `map` applies the closure to each item of the slice
/// once, and `collect` into a `Vec` puts the result for the item at
/// position `c` at position `c`, however the work was scheduled. rayon
/// panics if its global pool cannot be started.
#[verifier::external_body]
fn par_map_counts<F>(candidates: &Vec<Vec<u32>>, count: F) -> (counts: Vec<usize>) where
    F: Fn(&Vec<u32>) -> usize + Sync + Send,

    requires
        forall|c: int| 0 <= c < candidates@.len() ==> call_requires(count, (&candidates@[c],)),
    ensures
        counts@.len() == candidates@.len(),
        forall|c: int|
            0 <= c < candidates@.len() ==> call_ensures(
                count,
                (&candidates@[c],),
                #[trigger] counts@[c],
            ),
{
    candidates.par_iter().map(count).collect()
}

/// Computes the support of every candidate over `transactions` and keeps
/// those that reach `min_support`, in the order of `candidates`.
///
/// Candidates are counted in parallel, one task each; a task scans the
/// transactions in order. With `prefilter_enabled` the item sets of the
/// transactions are computed once and let a task skip the matcher; the
/// result is the same either way.
pub fn compute_supports(
    transactions: &Vec<Vec<u32>>,
    candidates: &Vec<Vec<u32>>,
    min_support: usize,
    prefilter_enabled: bool,
) -> (out: Vec<(Vec<u32>, usize)>)
    ensures
        entries(out@) == frequent(rows(transactions@), rows(candidates@), min_support as nat),
{
    let prefilter = Prefilter::new(transactions, prefilter_enabled);
    let count = |candidate: &Vec<u32>| -> (n: usize)
        ensures
            n == support(rows(transactions@), candidate@),
        { count_support(transactions, &prefilter, candidate) };
    let counts = par_map_counts(candidates, count);
    assert(as_nats(counts@) =~= supports(rows(transactions@), rows(candidates@)));
    retain_frequent(candidates, &counts, min_support)
}

/// The result holds exactly the candidates whose support reaches
/// `min_support`, each paired with its support, in the order in which the
/// candidates were given. The positions returned are those candidates'.
pub proof fn lemma_frequent_keeps_order(
    transactions: Seq<Seq<u32>>,
    candidates: Seq<Seq<u32>>,
    min_support: nat,
) -> (positions: Seq<int>)
    ensures
        positions.len() == frequent(transactions, candidates, min_support).len(),
        strictly_increasing(positions),
        forall|k: int|
            0 <= k < positions.len() ==> {
                &&& 0 <= #[trigger] positions[k] < candidates.len()
                &&& frequent(transactions, candidates, min_support)[k] == (
                    candidates[positions[k]],
                    support(transactions, candidates[positions[k]]),
                )
                &&& frequent(transactions, candidates, min_support)[k].1 >= min_support
            },
        forall|c: int|
            0 <= c < candidates.len() ==> (positions.contains(c) <==> support(
                transactions,
                #[trigger] candidates[c],
            ) >= min_support),
{
    let all = paired(candidates, supports(transactions, candidates));
    let positions = lemma_filter_selects(all, reaches(min_support));
    assert forall|c: int| 0 <= c < candidates.len() implies (positions.contains(c) <==> support(
        transactions,
        #[trigger] candidates[c],
    ) >= min_support) by {
        assert(reaches(min_support)(all[c]) == (support(transactions, candidates[c])
            >= min_support));
    }
    positions
}

/// A minimum support of zero keeps every candidate, with its support.
pub proof fn lemma_zero_minimum_keeps_all(transactions: Seq<Seq<u32>>, candidates: Seq<Seq<u32>>)
    ensures
        frequent(transactions, candidates, 0) == paired(
            candidates,
            supports(transactions, candidates),
        ),
{
    lemma_filter_keeps_all(paired(candidates, supports(transactions, candidates)), reaches(0));
}

/// Without transactions every candidate has support zero: a minimum support
/// of zero keeps them all, and any other minimum keeps none.
pub proof fn lemma_without_transactions(candidates: Seq<Seq<u32>>, min_support: nat)
    ensures
        frequent(Seq::empty(), candidates, min_support) == if min_support == 0 {
            paired(candidates, Seq::new(candidates.len(), |c: int| 0nat))
        } else {
            Seq::empty()
        },
{
    let none = Seq::<Seq<u32>>::empty();
    assert forall|c: int| 0 <= c < candidates.len() implies support(none, #[trigger] candidates[c])
        == 0 by {
        lemma_support_of_none(candidates[c]);
    }
    if min_support == 0 {
        lemma_zero_minimum_keeps_all(none, candidates);
    } else {
        let positions = lemma_frequent_keeps_order(none, candidates, min_support);
        if positions.len() > 0 {
            assert(positions.contains(positions[0]));
        }
    }
}

/// Two results for the same transactions, candidates and minimum support
/// agree entry for entry: the output depends on nothing else, neither on
/// the prefilter switch nor on an earlier call.
pub proof fn lemma_same_inputs_same_output(
    first: Seq<(Vec<u32>, usize)>,
    second: Seq<(Vec<u32>, usize)>,
    transactions: Seq<Seq<u32>>,
    candidates: Seq<Seq<u32>>,
    min_support: nat,
)
    requires
        entries(first) == frequent(transactions, candidates, min_support),
        entries(second) == frequent(transactions, candidates, min_support),
    ensures
        first.len() == second.len(),
        forall|e: int|
            0 <= e < first.len() ==> (#[trigger] first[e]).0@ == second[e].0@ && first[e].1
                == second[e].1,
{
    assert(entries(first).len() == first.len());
    assert(entries(second).len() == second.len());
    assert forall|e: int| 0 <= e < first.len() implies (#[trigger] first[e]).0@ == second[e].0@
        && first[e].1 == second[e].1 by {
        assert(entries(first)[e] == entries(second)[e]);
    }
}

} // verus!
