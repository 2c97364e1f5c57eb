//! Escrow and settlement core for a decentralized bug-bounty marketplace.
//!
//! Companies escrow a bounty for a published security challenge, hackers
//! attempt exploits, and an automated judge evaluates attempts and triggers
//! settlement. The crate is split into the challenge lifecycle state machine
//! (`bounty_factory`), the escrow ledger (`vault`), the evaluation and
//! dispute engine (`judge`), and a reporting leaderboard (`leaderboard`).
//! All state lives in explicit component structs; callers supply the caller
//! identity and the current time, and perform any outside calls between the
//! component operations.

pub mod bounty_factory;
pub mod judge;
pub mod leaderboard;
pub mod store;
pub mod types;
pub mod vault;

use vstd::prelude::*;

verus! {

} // verus!
