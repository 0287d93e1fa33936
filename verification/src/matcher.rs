//! The contiguous-run matcher.

use vstd::prelude::*;

verus! {

/// Whether `needle` fills the window of `hay` that starts at offset `start`.
pub open spec fn window_at(hay: Seq<u32>, needle: Seq<u32>, start: int) -> bool {
    &&& 0 <= start
    &&& start + needle.len() <= hay.len()
    &&& hay.subrange(start, start + needle.len()) == needle
}

/// Whether `needle` occurs in `hay` as an unbroken run of equal items.
/// The empty pattern occurs nowhere.
pub open spec fn occurs_in(hay: Seq<u32>, needle: Seq<u32>) -> bool {
    needle.len() > 0 && exists|start: int| #[trigger] window_at(hay, needle, start)
}

/// A pattern that occurs is neither empty nor longer than the sequence it
/// occurs in.
pub proof fn lemma_run_fits(hay: Seq<u32>, needle: Seq<u32>)
    requires
        occurs_in(hay, needle),
    ensures
        0 < needle.len() <= hay.len(),
{
}

/// Compares the window of `hay` at `start` with `needle`, item by item.
fn window_equals(hay: &[u32], needle: &[u32], start: usize) -> (same: bool)
    requires
        start + needle@.len() <= hay@.len(),
    ensures
        same == window_at(hay@, needle@, start as int),
{
    let n = needle.len();
    let m = hay.len();
    let mut k: usize = 0;
    while k < n
        invariant
            n == needle@.len(),
            m == hay@.len(),
            start + n <= m,
            k <= n,
            forall|j: int| 0 <= j < k ==> hay@[start + j] == needle@[j],
        decreases n - k,
    {
        if hay[start + k] != needle[k] {
            return false;
        }
        k += 1;
    }
    assert(hay@.subrange(start as int, start + n) =~= needle@);
    true
}

/// Decides whether `needle` occurs in `hay` as a contiguous run.
///
/// Each offset at which the needle fits is tried in turn. A window is
/// compared in full only when its first and last items agree with those of
/// the needle.
pub fn is_subseq_contiguous(hay: &[u32], needle: &[u32]) -> (found: bool)
    ensures
        found == occurs_in(hay@, needle@),
        needle@.len() == 0 ==> !found,
        needle@.len() > hay@.len() ==> !found,
{
    let n = needle.len();
    if n == 0 {
        return false;
    }
    let m = hay.len();
    if n > m {
        return false;
    }
    let first = needle[0];
    let last = needle[n - 1];
    let mut i: usize = 0;
    while i <= m - n
        invariant
            n == needle@.len(),
            m == hay@.len(),
            0 < n <= m,
            first == needle@[0],
            last == needle@[n - 1],
            i <= m - n + 1,
            forall|s: int| 0 <= s < i ==> !window_at(hay@, needle@, s),
        decreases m - n + 1 - i,
    {
        if hay[i] == first && hay[i + n - 1] == last && window_equals(hay, needle, i) {
            return true;
        }
        i += 1;
    }
    false
}

} // verus!
