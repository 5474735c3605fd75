use vstd::prelude::*;

verus! {

/// Every way an operation of the voting-power engine or the fee distributor can fail.
/// A failed operation changes nothing.
#[derive(Clone, Copy, Debug, PartialEq, Eq, Structural)]
pub enum ContractError {
    /// An intermediate value left the range of its integer type.
    Overflow {},
    Unauthorized {},
    DataShouldBeGiven {},
    InsufficientFunds {},
    ContractsCannotInteractWithLocks {},
    LockAlreadyExists {},
    LockDoesNotExist {},
    LockIsExpired {},
    InsufficientLockAmount {},
    InsufficientLockIncreaseAmount {},
    EndLockTimeTooEarly {},
    EndLockTimeTooLate { max_weeks: u64, lock_duration_in_weeks: u64 },
    ConfigContractsNotRegistered {},
    NothingStaked {},
    NothingToDistribute {},
}

impl ContractError {
    /// A human-readable description of the error.
    pub fn message(&self) -> (r: String) {
        match self {
            ContractError::Overflow {} => String::from_str("Arithmetic overflow"),
            ContractError::Unauthorized {} => String::from_str("Unauthorized"),
            ContractError::DataShouldBeGiven {} => String::from_str("Data should be given"),
            ContractError::InsufficientFunds {} => String::from_str("Insufficient funds sent"),
            ContractError::ContractsCannotInteractWithLocks {} => String::from_str(
                "Contracts can't create, modify, or withdraw locks",
            ),
            ContractError::LockAlreadyExists {} => String::from_str(
                "A lock already exists. You cannot create a new one until the old one expires and is withdrawn.",
            ),
            ContractError::LockDoesNotExist {} => String::from_str(
                "A lock does not exist. You cannot modify a lock before creating one.",
            ),
            ContractError::LockIsExpired {} => String::from_str(
                "The current lock is expired. You cannot modify an expired lock. Please withdraw it and try again.",
            ),
            ContractError::InsufficientLockAmount {} => String::from_str(
                "Insufficient funds sent. Locks must contain a non zero amount.",
            ),
            ContractError::InsufficientLockIncreaseAmount {} => String::from_str(
                "Insufficient funds sent. Lock amount increases must be greater than 0.",
            ),
            ContractError::EndLockTimeTooEarly {} => String::from_str(
                "Must specify an end lock time at least a week in the future. If a lock already exists, you must specify an end lock time greater than the existing one.",
            ),
            ContractError::EndLockTimeTooLate { .. } => String::from_str(
                "Must specify an end lock time less than the maximum number of weeks into the future.",
            ),
            ContractError::ConfigContractsNotRegistered {} => String::from_str(
                "Config contracts have not been registered yet",
            ),
            ContractError::NothingStaked {} => String::from_str("Nothing staked"),
            ContractError::NothingToDistribute {} => String::from_str("Nothing to distribute"),
        }
    }
}

} // verus!
