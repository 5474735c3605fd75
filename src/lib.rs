//! A vote-escrowed staking engine and a weekly fee distributor.
//!
//! Users lock a token until a week boundary at most `MAX_WEEKS` weeks ahead; their
//! voting power decays quadratically to zero at the lock's end. The engine keeps every
//! user's lock history and a history of the aggregate, whose coefficients are caught
//! up week by week from a schedule of changes at lock ends (`ve_token`,
//! `ve_contract`). Fees are bucketed per week and claimed in proportion to voting power,
//! a bounded number of weeks at a time (`fee_distributor`). The laws that tie the
//! pieces together are proved in `laws`.

use vstd::prelude::*;

pub mod coefficients;
pub mod decimal;
pub mod error;
pub mod fee_distributor;
pub mod fee_msg;
pub mod laws;
pub mod lock;
pub mod ve_contract;
pub mod ve_msg;
pub mod ve_token;
pub mod wide;

verus! {

/// Seconds in one week; every lock end and distribution bucket is a multiple of it.
pub const SECONDS_PER_WEEK: u64 = 604_800;

/// Longest lock, in weeks.
pub const MAX_WEEKS: u64 = 52;

/// Longest lock, in seconds.
pub const MAX_SECONDS: u64 = 31_449_600;

/// Divisor that scales `locked amount * remaining seconds` down to voting power.
pub const VOTING_POWER_CONSTANT_DIVISOR: u64 = 31_449_600;

} // verus!
