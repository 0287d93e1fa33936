//! How the executable values read as mathematical sequences.

use vstd::prelude::*;

verus! {

/// A list of item sequences, each taken by its view: transactions or
/// candidates as sequences of sequences.
pub open spec fn rows(table: Seq<Vec<u32>>) -> Seq<Seq<u32>> {
    Seq::new(table.len(), |r: int| table[r]@)
}

/// A list of counts as natural numbers.
pub open spec fn as_nats(counts: Seq<usize>) -> Seq<nat> {
    Seq::new(counts.len(), |c: int| counts[c] as nat)
}

/// The entries of a result: each pattern by its view, with its support.
pub open spec fn entries(out: Seq<(Vec<u32>, usize)>) -> Seq<(Seq<u32>, nat)> {
    Seq::new(out.len(), |e: int| (out[e].0@, out[e].1 as nat))
}

} // verus!
