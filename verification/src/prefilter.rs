//! The presence prefilter: a per-transaction set of distinct items that lets
//! a scan skip the matcher when a candidate holds an item the transaction
//! lacks.

use crate::matcher::{occurs_in, window_at};
use crate::views::rows;
use std::collections::HashSet;
use vstd::prelude::*;
use vstd::string::StrSliceExecFns;

verus! {

broadcast use vstd::std_specs::hash::group_hash_axioms;

/// Whether some item of `candidate` is missing from `items`.
pub open spec fn has_absent_item(items: Set<u32>, candidate: Seq<u32>) -> bool {
    exists|k: int| 0 <= k < candidate.len() && !items.contains(#[trigger] candidate[k])
}

/// The item sets that a prefilter over `transactions` holds: one set of
/// distinct items per transaction when enabled, nothing when disabled.
pub open spec fn presence_sets(transactions: Seq<Seq<u32>>, enabled: bool) -> Option<
    Seq<Set<u32>>,
> {
    if enabled {
        Some(Seq::new(transactions.len(), |t: int| transactions[t].to_set()))
    } else {
        None
    }
}

/// A candidate that holds an item which the transaction lacks has no run in it.
pub proof fn lemma_absent_item_excludes_run(hay: Seq<u32>, needle: Seq<u32>)
    requires
        has_absent_item(hay.to_set(), needle),
    ensures
        !occurs_in(hay, needle),
{
    if occurs_in(hay, needle) {
        let start = choose|start: int| #[trigger] window_at(hay, needle, start);
        let k = choose|k: int|
            0 <= k < needle.len() && !hay.to_set().contains(#[trigger] needle[k]);
        assert(needle[k] == hay[start + k]);
    }
}

/// The optional presence check of a scan.
pub struct Prefilter {
    sets: Option<Vec<HashSet<u32>>>,
}

impl View for Prefilter {
    type V = Option<Seq<Set<u32>>>;

    closed spec fn view(&self) -> Option<Seq<Set<u32>>> {
        match self.sets {
            Some(sets) => Some(Seq::new(sets@.len(), |t: int| sets@[t]@)),
            None => None,
        }
    }
}

impl Prefilter {
    /// Whether the check is switched on.
    pub open spec fn enabled(&self) -> bool {
        self@ is Some
    }

    /// Whether the prefilter was computed from `transactions`.
    pub open spec fn describes(&self, transactions: Seq<Seq<u32>>) -> bool {
        self@ == presence_sets(transactions, self.enabled())
    }

    /// Whether the check rules out transaction `t` for `candidate`.
    pub open spec fn skips(&self, t: int, candidate: Seq<u32>) -> bool {
        self@ matches Some(sets) && has_absent_item(sets[t], candidate)
    }

    /// A skipped pair is never a match: skipping changes no support.
    pub proof fn lemma_skip_is_sound(
        &self,
        transactions: Seq<Seq<u32>>,
        t: int,
        candidate: Seq<u32>,
    )
        requires
            self.describes(transactions),
            0 <= t < transactions.len(),
            self.skips(t, candidate),
        ensures
            !occurs_in(transactions[t], candidate),
    {
        lemma_absent_item_excludes_run(transactions[t], candidate);
    }

    /// Precomputes the item sets of `transactions` when `enabled`; holds
    /// nothing otherwise.
    pub fn new(transactions: &Vec<Vec<u32>>, enabled: bool) -> (prefilter: Prefilter)
        ensures
            prefilter@ == presence_sets(rows(transactions@), enabled),
            prefilter.enabled() == enabled,
            prefilter.describes(rows(transactions@)),
    {
        if !enabled {
            return Prefilter { sets: None };
        }
        let mut sets: Vec<HashSet<u32>> = Vec::new();
        let mut t: usize = 0;
        while t < transactions.len()
            invariant
                t <= transactions@.len(),
                sets@.len() == t,
                forall|r: int| 0 <= r < t ==> (#[trigger] sets@[r])@ == transactions@[r]@.to_set(),
            decreases transactions@.len() - t,
        {
            sets.push(distinct_items(transactions[t].as_slice()));
            t += 1;
        }
        let prefilter = Prefilter { sets: Some(sets) };
        assert(prefilter@->0 =~= presence_sets(rows(transactions@), enabled)->0);
        prefilter
    }

    /// Decides whether the matcher can be skipped for transaction `t` and
    /// `candidate`: always `false` when the check is switched off.
    pub fn can_skip(&self, t: usize, candidate: &[u32]) -> (skip: bool)
        requires
            self@ matches Some(sets) ==> t < sets.len(),
        ensures
            skip == self.skips(t as int, candidate@),
    {
        match &self.sets {
            None => false,
            Some(sets) => !holds_all(&sets[t], candidate),
        }
    }
}

/// Whether a setting's text switches the prefilter on: `1`, or `true` in
/// any mix of upper and lower case.
pub open spec fn switches_on(text: Seq<char>) -> bool {
    ||| text == seq!['1']
    ||| {
        &&& text.len() == 4
        &&& (text[0] == 't' || text[0] == 'T')
        &&& (text[1] == 'r' || text[1] == 'R')
        &&& (text[2] == 'u' || text[2] == 'U')
        &&& (text[3] == 'e' || text[3] == 'E')
    }
}

/// Reads the prefilter switch from an optional setting. A missing setting
/// leaves the prefilter off.
pub fn prefilter_requested(setting: Option<&str>) -> (on: bool)
    ensures
        on == (setting matches Some(text) && switches_on(text@)),
{
    match setting {
        None => false,
        Some(text) => {
            let n = text.unicode_len();
            if n == 1 {
                let on = text.get_char(0) == '1';
                assert(on == (text@ =~= seq!['1']));
                on
            } else if n == 4 {
                let t = text.get_char(0);
                let r = text.get_char(1);
                let u = text.get_char(2);
                let e = text.get_char(3);
                (t == 't' || t == 'T') && (r == 'r' || r == 'R') && (u == 'u' || u == 'U') && (e
                    == 'e' || e == 'E')
            } else {
                false
            }
        },
    }
}

/// Collects the distinct items of a transaction.
pub fn distinct_items(transaction: &[u32]) -> (items: HashSet<u32>)
    ensures
        items@ == transaction@.to_set(),
{
    let mut items: HashSet<u32> = HashSet::new();
    let mut k: usize = 0;
    while k < transaction.len()
        invariant
            k <= transaction@.len(),
            items@ == transaction@.take(k as int).to_set(),
        decreases transaction@.len() - k,
    {
        items.insert(transaction[k]);
        proof {
            let before = transaction@.take(k as int);
            before.lemma_push_to_set_commute(transaction@[k as int]);
            assert(transaction@.take(k + 1) =~= before.push(transaction@[k as int]));
        }
        k += 1;
    }
    assert(transaction@.take(k as int) =~= transaction@);
    items
}

/// Whether every item of `candidate` is in `items`.
fn holds_all(items: &HashSet<u32>, candidate: &[u32]) -> (all: bool)
    ensures
        all == !has_absent_item(items@, candidate@),
{
    let mut k: usize = 0;
    while k < candidate.len()
        invariant
            k <= candidate@.len(),
            forall|j: int| 0 <= j < k ==> items@.contains(#[trigger] candidate@[j]),
        decreases candidate@.len() - k,
    {
        if !items.contains(&candidate[k]) {
            return false;
        }
        k += 1;
    }
    true
}

} // verus!
