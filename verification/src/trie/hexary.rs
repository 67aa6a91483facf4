//! What the levels of a hexary proof say about a branch: which slots of
//! the branch hold a child, and which hashes stand beside the path.

use vstd::prelude::*;
use super::row_trie::{NodeModel, bit_of, occupied_bitmap, sibling_hashes};

verus! {

/// The number of occupied slots among the first `n`.
pub open spec fn occupied_count(c: Seq<Option<NodeModel>>, n: nat) -> nat
    decreases n,
{
    if n == 0 || n > c.len() {
        0
    } else {
        occupied_count(c, (n - 1) as nat) + if c[n - 1] is Some {
            1nat
        } else {
            0nat
        }
    }
}

/// The bitmap of the first `n` slots is below `2^n`, and its bit for slot
/// `n - 1` (the part at or above `2^(n-1)`) is set exactly when that slot
/// is occupied; so bit `i` of a level's bitmap says whether slot `i` holds
/// a child.
pub proof fn lemma_occupied_bitmap_bits(c: Seq<Option<NodeModel>>, n: nat)
    requires
        n <= c.len(),
    ensures
        occupied_bitmap(c, n) < bit_of(n),
        n > 0 ==> ((c[n - 1] is Some) <==> occupied_bitmap(c, n) >= bit_of((n - 1) as nat)),
        n > 0 && c[n - 1] is None ==> occupied_bitmap(c, n) == occupied_bitmap(c, (n - 1) as nat),
    decreases n,
{
    if n > 0 {
        lemma_occupied_bitmap_bits(c, (n - 1) as nat);
    }
}

/// The sibling hashes of a level are one per occupied slot other than the
/// path's own: the path's slot is never among them, so their number is the
/// number of occupied slots less one when the path's slot is occupied.
pub proof fn lemma_sibling_hashes_count(c: Seq<Option<NodeModel>>, nib: int, n: nat)
    requires
        n <= c.len(),
    ensures
        sibling_hashes(c, nib, n).len() + (if 0 <= nib < n && c[nib] is Some { 1int } else { 0int })
            == occupied_count(c, n),
    decreases n,
{
    if n > 0 {
        lemma_sibling_hashes_count(c, nib, (n - 1) as nat);
    }
}

} // verus!
