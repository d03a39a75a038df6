//! On-chain adjudicator for Perun payment channels: deposits, the
//! conclude / dispute / withdraw protocol over signed channel states, and the
//! bookkeeping that ties external ledger payments to channel fundings.

pub mod adjudicator;
pub mod amount;
pub mod crypto;
pub mod encoding;
pub mod error;
pub mod events;
pub mod icp;
pub mod table;
pub mod types;

pub use adjudicator::CanisterState;
