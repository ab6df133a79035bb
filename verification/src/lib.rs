//! A local mirror of a remote append-only bulletin board.
//!
//! The remote board is the source of truth. This crate holds the rules by
//! which fetched messages are given a local order, deduplicated, and
//! periodically reconciled in full; network and disk access are left to the
//! caller, who hands in what was fetched and persists what was accepted.

pub mod board;
pub mod error;
pub mod laws;
pub mod model;
pub mod record;
pub mod store;
pub mod sync;
