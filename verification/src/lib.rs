//! Custodial staking pool accounting: time-locked positions, proportional
//! reward and slash distribution, and the decisions taken around transfers
//! on an external token ledger.
//!
//! The pool itself ([`state`]) never waits on the ledger. The operations
//! that do ([`lifecycle`]) are cut into steps: a step takes what the ledger
//! answered, looks at the pool as it is then, and changes it only on a
//! receipt.

pub mod address;
pub mod laws;
pub mod ledger;
pub mod lifecycle;
pub mod rewards;
pub mod shares;
pub mod slashing;
pub mod snapshot;
pub mod state;
pub mod totals;
pub mod types;
