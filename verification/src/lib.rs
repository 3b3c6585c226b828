//! Identity-verification workflow engine.
//!
//! This crate binds an external chat-platform identity to an internal
//! account identifier (a "ckey") through a supervised, multi-step
//! verification workflow, and maintains the derived access-control
//! whitelist.  The crate holds the workflow state machine and the three
//! stores it drives; all I/O (durable storage, the chat platform itself)
//! is left to the embedding program, which feeds events in and carries
//! the returned actions out.

pub mod ckey;
pub mod config;
pub mod engine;
pub mod identity;
pub mod status;
pub mod whitelist;
