//! A minimal embedding host for a foreign scripting engine.
//!
//! The host initializes the engine once, partitions the process arguments
//! into engine-understood and host-understood subsets, creates one isolated
//! execution context bound to a message channel, runs a named script against
//! it, and surfaces an uncaught script exception as a host-level error before
//! deterministic teardown.
//!
//! Everything the host decides — transport encoding for the foreign boundary,
//! flag partitioning, outcome classification, the context lifecycle — is
//! verified here against a model of the engine's documented contract.

pub mod buffer;
pub mod channel;
pub mod encoding;
pub mod engine;
pub mod flags;
pub mod handle;
pub mod host;
pub mod lifecycle;
pub mod outcome;
