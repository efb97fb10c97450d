//! A hash-chained block log with proof-of-work sealing, and the credential
//! store that guards the wallets whose transfers it records.

pub mod blockchain;
mod clock;
pub mod credential;
pub mod hasher;
pub mod ledger;
pub mod phc;
pub mod text;
pub mod wallet;
