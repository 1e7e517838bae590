//! A deterministic event-sourced simulation core with crash-recoverable
//! persistence.
//!
//! The library keeps an in-memory world that evolves tick by tick under a
//! command/event protocol.  Every state transition is described by an event;
//! events are framed into CRC-validated write-ahead-log records, and periodic
//! snapshots carry a WAL cursor so that a crash can be recovered by replaying
//! the surviving events onto the most recent snapshot.

pub mod types;
pub mod commands;
pub mod events;
pub mod errors;
pub mod validation;
pub mod world;
pub mod text;
pub mod replay;
pub mod rng;
pub mod clock;
pub mod codec;
pub mod wal;
pub mod hasher;
pub mod snapshot;
pub mod mocks;
pub mod migrations;
pub mod config;
pub mod sim;
pub mod determinism;
pub mod scenarios;
pub mod filesystem;
