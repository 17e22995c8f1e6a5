//! Laws relating several reconciliation steps.

use vstd::prelude::*;

verus! {

/// Round trip of `apply` followed by `detach` with no ancestor.
///
/// A fresh apply puts exactly one new identifier into an ordered sequence
/// (a host child order, or a live instance list): some position `i`
/// receives a `fresh` element that was not there before.  The detach that
/// follows removes the element carrying that identifier.  This law says
/// the removal restores the original sequence exactly, whatever position
/// the insertion chose — the inserted element occurs at no other position,
/// so the element the detach finds is the one the apply inserted.
pub proof fn lemma_apply_detach_round_trip<A>(order: Seq<A>, fresh: A, i: int)
    requires
        0 <= i <= order.len(),
        !order.contains(fresh),
    ensures
        order.insert(i, fresh).remove(i) == order,
        forall|j: int|
            0 <= j < order.insert(i, fresh).len() && order.insert(i, fresh)[j] == fresh ==> j == i,
{
    let t = order.insert(i, fresh);
    assert(t.remove(i) =~= order);
    assert forall|j: int| 0 <= j < t.len() && t[j] == fresh implies j == i by {
        if j < i {
            assert(order[j] == fresh);
            assert(order.contains(fresh));
        } else if j > i {
            assert(order[j - 1] == fresh);
            assert(order.contains(fresh));
        }
    }
}

} // verus!
