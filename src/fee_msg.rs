use vstd::prelude::*;

verus! {

/// Creates the fee distributor; it takes no arguments.
#[derive(Clone, Debug, PartialEq, Eq)]
pub struct InstantiateMsg {}

/// Migrations take no arguments.
#[derive(Clone, Debug, PartialEq, Eq)]
pub struct MigrateMsg {}

/// The read-only requests of the fee distributor.
#[derive(Clone, Debug, PartialEq, Eq)]
pub enum QueryMsg {
    Config {},
    State {},
    Staker { address: String, fee_limit: Option<u32>, fee_start_after: Option<u64> },
}

#[derive(Clone, Debug, PartialEq, Eq)]
pub struct ConfigResponse {
    pub owner: String,
    pub glow_token: String,
    pub ve_token: String,
    pub terraswap_factory: String,
}

/// The distributor's ledger total.
#[derive(Clone, Copy, Debug, PartialEq, Eq, Structural)]
pub struct StateResponse {
    pub contract_addr: u64,
    pub total_distributed_unclaimed_fees: u128,
}

/// One user's standing: voting balance now, claim cursor before and after the
/// weeks that a claim would take, and what those weeks pay.
#[derive(Clone, Copy, Debug, PartialEq, Eq, Structural)]
pub struct StakerResponse {
    pub balance: u128,
    pub initial_last_claimed_fee_timestamp: u64,
    pub last_claimed_fee_timestamp: u64,
    pub claimable_fees_lower_bound: u128,
}

} // verus!
