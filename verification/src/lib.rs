//! An ownership-indexed record store: records ("kitties") keyed by a byte
//! identifier, each held by exactly one account, with a secondary index from
//! account to the identifiers it owns. The two state-changing operations,
//! `create_kitty` and `transfer_kitty`, check all preconditions before the
//! first write, so a rejected call leaves the store untouched.

pub mod error;
pub mod event;
pub mod kitty;
pub mod store;
