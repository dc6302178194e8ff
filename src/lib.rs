//! A bounty marketplace ledger: funders escrow a payment for a task, a
//! council decides which bounties go live, hunters compete for them, and a
//! resolved bounty pays out and credits reputation and mining power.
//!
//! Every action checks the caller's role, the bounty's state and the
//! resources involved, and either applies all of its changes or none.

pub mod arith;
pub mod bounties;
pub mod bounty_id;
pub mod escrow;
pub mod mining;
pub mod primitives;
pub mod reputation;
pub mod support;
pub mod system;
pub mod tracker;
pub mod types;
