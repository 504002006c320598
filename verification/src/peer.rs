//! The peer unit's data surface, as far as this core reads it: its
//! state with the activity counter, and its message types.

use vstd::prelude::*;
use crate::state::{CoinValue, Ratio};

verus! {

/// What a peer unit can be asked to do.  Both operations are explicit
/// non-goals of this core.
pub enum ExecuteMsg {
    Donate {},
    Withdraw {},
}

/// What a peer unit can be asked about.
pub enum QueryMsg {
    /// Its activity counter: how many donators it has tracked.
    Donators {},
    /// The owner it was created for.
    Owner {},
    /// The coordinator that created it.
    Manager {},
}

/// What a peer unit is created with.
pub struct InstantiateMsg {
    pub owner: String,
    pub incremental_donation: CoinValue,
    pub collective_ratio: Ratio,
}

/// Answer to [`QueryMsg::Donators`].
#[derive(PartialEq, Eq, Debug)]
pub struct DonatorsResponse {
    pub donators: u64,
}

/// Answer to [`QueryMsg::Owner`].
#[derive(PartialEq, Eq, Debug)]
pub struct OwnerResp {
    pub owner: String,
}

/// Answer to [`QueryMsg::Manager`].
#[derive(PartialEq, Eq, Debug)]
pub struct ManagerResp {
    pub manager: String,
}

/// A peer unit's own state: its activity counter, the configuration
/// snapshot it was created with, and its creating coordinator.
pub struct State {
    /// The non-negative activity counter used as distribution weight.
    pub donators: u64,
    pub incremental_donation: CoinValue,
    pub collective_ratio: Ratio,
    pub manager: String,
}

impl State {
    /// The state a freshly created peer unit starts in: no tracked
    /// donators yet, and the creating coordinator as manager.
    pub fn initial(incremental_donation: CoinValue, collective_ratio: Ratio, manager: String) -> (r:
        State)
        ensures
            r.donators == 0,
            r.incremental_donation@ == incremental_donation@,
            r.collective_ratio == collective_ratio,
            r.manager@ == manager@,
    {
        State { donators: 0, incremental_donation, collective_ratio, manager }
    }

    /// The activity counter, as the donators query reports it.
    pub fn donators_response(&self) -> (r: DonatorsResponse)
        ensures
            r.donators == self.donators,
    {
        DonatorsResponse { donators: self.donators }
    }

    /// The creating coordinator, as the manager query reports it.
    pub fn manager_response(&self) -> (r: ManagerResp)
        ensures
            r.manager@ == self.manager@,
    {
        ManagerResp { manager: self.manager.clone() }
    }
}

} // verus!
