//! Batch submission of signed ping transactions: payload construction, the
//! per-payload submission state machine, the round-by-round dispatch and
//! resign engine, and the final report.
//!
//! The crate does no I/O. A driver performs each [`rules::Action`] against
//! the cluster and feeds what it observed back as a [`rules::Event`].

pub mod identity;
pub mod payload;
pub mod state;
pub mod transport;
pub mod rules;
pub mod engine;
pub mod report;
