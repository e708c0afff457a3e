//! A verified non-fungible-token registry: classes of tokens, minted
//! instances, ownership transfer, burning, and destruction of empty classes,
//! with a currency deposit reserved for every instance while it exists.
//!
//! Every operation is an atomic state transition: all preconditions are
//! checked before any mutation, so a call that returns an error leaves the
//! registry untouched.

pub mod auth;
pub mod laws;
pub mod registry;
pub mod tally;
pub mod types;
