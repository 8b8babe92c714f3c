//! A fungible-token ledger with native-currency bridging and
//! confidentiality-guarded read access.
//!
//! The crate verifies the accounting engine (balances, allowances, total
//! supply), the byte-level storage encoding, the viewing-key subsystem
//! (derivation, hashed storage, constant-time verification), and the query
//! authorization layer.

pub mod auth;
pub mod encode;
pub mod error;
pub mod keys;
pub mod ledger;
pub mod store;
