//! The protocol laws: proved consequences of the coordinator's
//! transitions that hold in every reachable state.

use vstd::prelude::*;
use crate::state::{
    find_pending, find_peer_for_owner, lemma_find_owner_after_insert, lemma_find_pending_exists,
    lemma_pending_remove_gone, register_next, register_ok, CoordModel,
};

verus! {

/// A completion is consumed exactly once: after a completion has
/// registered a peer through a token, that token is no longer
/// pending, so a second completion with the same token is refused as
/// an unknown correlation token.
pub proof fn lemma_completion_consumed_once(m: CoordModel, token: u64, peer: Seq<char>)
    requires
        m.wf(),
        register_ok(m, token),
    ensures
        !register_ok(register_next(m, token, peer), token),
{
    lemma_find_pending_exists(m.pending, token);
    let i = choose|i: int| 0 <= i < m.pending.len() && m.pending[i].0 == token;
    lemma_pending_remove_gone(m.pending, token, i);
}

/// The registry is written correctly: after a join and its successful
/// completion, the joining owner's lookup surfaces exactly the newly
/// registered peer — provided no peer of that owner was registered
/// before.
pub proof fn lemma_registry_after_completion(m: CoordModel, token: u64, peer: Seq<char>)
    requires
        m.wf(),
        register_ok(m, token),
        find_peer_for_owner(m.registry, find_pending(m.pending, token)->0.owner) is None,
    ensures
        find_peer_for_owner(
            register_next(m, token, peer).registry,
            find_pending(m.pending, token)->0.owner,
        ) == Some(peer),
{
    lemma_find_owner_after_insert(m.registry, peer, find_pending(m.pending, token)->0.owner);
}

} // verus!
