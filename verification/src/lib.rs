//! Reconstruction of the current tasks of a Things Cloud account from its
//! history, the append-only log of create, modify and delete events.
//!
//! The crate holds the decisions: when another page of the log has to be
//! requested ([`fetch`]), how the collected events fold into task snapshots
//! ([`tasks`]) and what an account response means for a login ([`account`]).
//! What holds of the fold for every log is proved in [`laws`]. Sending
//! requests and decoding their bytes is left to the caller.

pub mod account;
pub mod fetch;
pub mod json;
pub mod laws;
pub mod tasks;

pub use account::Account;
pub use tasks::History;
