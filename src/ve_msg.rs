use vstd::prelude::*;

verus! {

/// Creates the voting-power engine; it takes no arguments.
#[derive(Clone, Debug, PartialEq, Eq)]
pub struct InstantiateMsg {}

/// Migrations take no arguments.
#[derive(Clone, Debug, PartialEq, Eq)]
pub struct MigrateMsg {}

/// What a deposit through the reward token asks for.
#[derive(Clone, Copy, Debug, PartialEq, Eq, Structural)]
pub enum Cw20HookMsg {
    /// Lock the deposit until `end_lock_time` (rounded down to a week).
    CreateLock { end_lock_time: u64 },
    /// Add the deposit to the existing lock.
    IncreaseLockAmount {},
}

/// The read-only requests of the engine; a missing timestamp means now.
#[derive(Clone, Debug, PartialEq, Eq)]
pub enum QueryMsg {
    Config {},
    State { timestamp: Option<u64> },
    Staker { address: String, timestamp: Option<u64> },
}

#[derive(Clone, Debug, PartialEq, Eq)]
pub struct ConfigResponse {
    pub owner: String,
    pub cw20_address: String,
}

/// The aggregate at a time.
#[derive(Clone, Copy, Debug, PartialEq, Eq, Structural, Default)]
pub struct StateResponse {
    pub total_deposited_amount: u128,
    pub total_locked_amount: u128,
    pub total_balance: u128,
}

/// One user's lock at a time.
#[derive(Clone, Copy, Debug, PartialEq, Eq, Structural, Default)]
pub struct StakerResponse {
    pub deposited_amount: u128,
    pub locked_amount: u128,
    pub balance: u128,
}

} // verus!
