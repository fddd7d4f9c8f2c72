//! An escrow marketplace, modelled and verified as a state machine.
//!
//! Sellers lock a unique asset into a program-controlled vault, buyers
//! atomically pay a price and receive the asset, and the marketplace
//! operator collects a fee in basis points and issues loyalty reward
//! units. The settlement engine in [`market`] keeps the core invariant:
//! a listing exists if and only if its vault holds exactly one unit of
//! the listed asset.
//!
//! The surrounding ledger runtime — atomic transaction execution,
//! account storage at derived addresses, the raw token-transfer
//! primitive — is an external collaborator. Here its guarantees are the
//! model itself: every state change goes through a checked method of
//! [`market::Market`], and a failed request leaves the state untouched.

pub mod errors;
pub mod fees;
pub mod state;
pub mod table;
pub mod market;
pub mod laws;
