//! Messages of the coordinator: commands, queries and their responses.

use vstd::prelude::*;
use crate::state::{CoinModel, CoinValue, Config, Ratio};

verus! {

/// What a coordinator can be asked to do.
pub enum ExecuteMsg {
    /// Issue a spawn request for a new peer unit owned by the sender.
    Join {},
    /// An explicit non-goal: accepted and ignored.
    Leave {},
    /// Split the pooled balance across the registered peers.
    Donate {},
}

/// What a coordinator can be asked about.
pub enum QueryMsg {
    /// The configuration, if initialization has happened.
    Config {},
    /// The first peer, in ascending peer order, owned by `addr`.
    MemberPeerAddr { addr: String },
}

/// The configuration a coordinator is initialized with.
pub struct InstantiateMsg {
    pub peer_code_id: u64,
    pub incremental_donation: CoinValue,
    pub collective_ratio: Ratio,
}

/// Answer to [`QueryMsg::Config`].
#[derive(PartialEq, Eq, Debug)]
pub struct GetConfigResponse {
    pub config: Option<Config>,
}

/// Answer to [`QueryMsg::MemberPeerAddr`].
#[derive(PartialEq, Eq, Debug)]
pub struct MemberPeerAddrResp {
    pub addr: String,
}

/// The descriptor of a spawn request issued by a join: everything the
/// external runtime needs to create the new peer unit.
pub struct SpawnRequest {
    /// What kind of peer unit to create.
    pub code_id: u64,
    /// The requesting owner, who will own the new peer unit.
    pub owner: String,
    /// Snapshot of the configured donation step.
    pub incremental_donation: CoinValue,
    /// Snapshot of the configured collective ratio.
    pub collective_ratio: Ratio,
    /// A human-readable label for the new peer unit.
    pub label: String,
}

/// Model of a [`SpawnRequest`].
pub struct SpawnRequestModel {
    pub code_id: u64,
    pub owner: Seq<char>,
    pub incremental_donation: CoinModel,
    pub collective_ratio: u128,
    pub label: Seq<char>,
}

impl View for SpawnRequest {
    type V = SpawnRequestModel;

    open spec fn view(&self) -> SpawnRequestModel {
        SpawnRequestModel {
            code_id: self.code_id,
            owner: self.owner@,
            incremental_donation: self.incremental_donation@,
            collective_ratio: self.collective_ratio@,
            label: self.label@,
        }
    }
}

/// The outcome the external scheduler reports for an issued spawn
/// request.
pub enum CompletionOutcome {
    /// The peer unit was created; the payload carries the encoded
    /// response of the runtime, from which the new peer identity is
    /// decoded.
    Success { payload: Option<Vec<u8>> },
    /// The spawn failed, for the given reason.
    Failure { reason: String },
}

} // verus!
