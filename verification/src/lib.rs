//! Synchronize DNS records in an authoritative hosted zone with a dynamic
//! inventory of network devices.
//!
//! The pipeline is linear: inventory entries are flattened into one record per
//! address, the records are mapped into an ordered batch of upsert operations,
//! and the batch is handed to a pluggable DNS provider. Every stage in this
//! crate is a pure function with a full functional contract; the network
//! clients that feed and drain the pipeline live outside it.

pub mod changes;
pub mod dns_sync;
pub mod ip;
pub mod orchestrator;
pub mod records;
pub mod route53;

use vstd::prelude::*;

verus! {

/// The fixed time-to-live, in seconds, attached to every record.
pub const DEFAULT_TTL: u64 = 300;

} // verus!
