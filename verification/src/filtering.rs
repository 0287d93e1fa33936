//! What filtering a sequence keeps, and in which order.

use vstd::prelude::*;

verus! {

/// Whether each position is smaller than the next.
pub open spec fn strictly_increasing(positions: Seq<int>) -> bool {
    forall|a: int, b: int| 0 <= a < b < positions.len() ==> positions[a] < positions[b]
}

/// Whether `positions` lists, in rising order, exactly the positions of `all`
/// whose entry passes `keep`, and `kept` holds the entries at those positions.
pub open spec fn selects<A>(
    positions: Seq<int>,
    all: Seq<A>,
    keep: spec_fn(A) -> bool,
    kept: Seq<A>,
) -> bool {
    &&& positions.len() == kept.len()
    &&& strictly_increasing(positions)
    &&& forall|k: int|
        0 <= k < positions.len() ==> 0 <= #[trigger] positions[k] < all.len() && kept[k]
            == all[positions[k]]
    &&& forall|c: int| 0 <= c < all.len() ==> (positions.contains(c) <==> keep(#[trigger] all[c]))
}

/// Filtering keeps the entries that pass, each once, in their old order.
pub proof fn lemma_filter_selects<A>(all: Seq<A>, keep: spec_fn(A) -> bool) -> (positions: Seq<
    int,
>)
    ensures
        selects(positions, all, keep, all.filter(keep)),
    decreases all.len(),
{
    reveal(Seq::filter);
    if all.len() == 0 {
        Seq::empty()
    } else {
        let last = all.len() - 1;
        let shorter = lemma_filter_selects(all.drop_last(), keep);
        if keep(all.last()) {
            let positions = shorter.push(last);
            assert forall|c: int| 0 <= c < all.len() implies (positions.contains(c) <==> keep(
                #[trigger] all[c],
            )) by {
                if c == last {
                    assert(positions[shorter.len() as int] == c);
                } else {
                    assert(all.drop_last()[c] == all[c]);
                    if shorter.contains(c) {
                        let k = choose|k: int| 0 <= k < shorter.len() && shorter[k] == c;
                        assert(positions[k] == c);
                    }
                }
            }
            positions
        } else {
            assert forall|c: int| 0 <= c < all.len() implies (shorter.contains(c) <==> keep(
                #[trigger] all[c],
            )) by {
                if c < last {
                    assert(all.drop_last()[c] == all[c]);
                }
            }
            shorter
        }
    }
}

/// A filter that every entry passes changes nothing.
pub proof fn lemma_filter_keeps_all<A>(all: Seq<A>, keep: spec_fn(A) -> bool)
    requires
        forall|c: int| 0 <= c < all.len() ==> keep(#[trigger] all[c]),
    ensures
        all.filter(keep) == all,
    decreases all.len(),
{
    if all.len() == 0 {
        all.lemma_filter_len(keep);
    } else {
        let shorter = all.drop_last();
        lemma_filter_keeps_all(shorter, keep);
        shorter.lemma_filter_push(all.last(), keep);
        assert(all =~= shorter.push(all.last()));
    }
}

} // verus!
