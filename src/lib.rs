//! Account-state change accumulation for a simulated chain: a merge engine
//! over per-address account and storage changes, with a status-flag algebra,
//! and the flat snapshot form of a whole state.

pub mod primitives;
pub mod assoc;
pub mod account;
pub mod diff;
pub mod dump;
pub mod handlers;
