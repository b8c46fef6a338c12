//! Keeps DNS address records in step with the machine's public (WAN) address.
//!
//! The crate holds the verified core of a dynamic-DNS updater: resolving and
//! classifying the WAN address, matching requested fully-qualified names
//! against the account's domains and records, classifying provider responses,
//! and the per-cycle decisions of the reconciliation loop. All I/O (HTTP,
//! files, timers) stays outside; the functions here take plain values and
//! return plain values or decisions.

pub mod address;
pub mod cli;
pub mod digitalocean;
pub mod text;
pub mod updater;
pub mod wan_ip_query;
