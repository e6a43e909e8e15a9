//! Bearer-token lifecycle and batch dataset-refresh dispatch.
//!
//! The library holds the decisions: when a cached token may be reused, what
//! happens after an acquisition attempt, which refresh calls a batch issues and
//! how each answer is reported. Network, files and the terminal stay with the
//! caller, which feeds the results back in as plain values.
pub mod decimal;
pub mod token;
pub mod lifecycle;
pub mod registry;
pub mod dispatch;
pub mod credentials;
