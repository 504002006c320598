//! The structured failures of the coordination core.

use vstd::prelude::*;

verus! {

/// Every failure a coordinator operation can surface.
#[derive(PartialEq, Eq, Debug)]
pub enum Error {
    /// `initialize` was called on an already initialized coordinator.
    AlreadyInitialized,
    /// The operation needs the configuration, which has not been set.
    ConfigNotFound,
    /// A completion or expiry referenced a token that is not pending:
    /// the token is unknown, or was already consumed.
    UnknownCorrelationToken,
    /// A successful completion arrived without a result payload.
    MissingCompletionPayload,
    /// A completion payload could not be decoded.
    MalformedCompletionPayload,
    /// No registry entry maps any peer to the queried owner.
    OwnerNotRegistered,
    /// A share computation would overflow the widened arithmetic domain.
    ArithmeticOverflow,
    /// The spawn of the peer unit itself failed; the reason is the one
    /// reported by the external scheduler.
    SpawnFailed { reason: String },
}

} // verus!
