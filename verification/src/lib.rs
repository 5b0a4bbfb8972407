//! A reputation-accruing staking ledger.
//!
//! Participants lock value to receive a derived, non-transferable reputation
//! score that grows with each deposit and decays proportionally on withdrawal,
//! subject to an owner-controlled blacklist and a 24-hour withdrawal cooldown.
//!
//! The ledger is an explicitly owned value with no ambient state. The
//! embedding host passes the caller's identity and the current time into
//! each operation and runs the operations one at a time; every operation
//! either takes full effect or rejects with an error and changes nothing.

pub mod accounts;
pub mod ledger;
pub mod uint256;

pub use crate::accounts::{Account, Address};
pub use crate::ledger::{Event, ReputationStaking, ReputationStakingError};
pub use crate::uint256::Uint256;
