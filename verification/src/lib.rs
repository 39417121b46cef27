//! Slipstream sync engine core (platform-neutral).
pub mod anchor;
pub mod batch_sinsemilla;
pub mod block_source;
pub mod calendar;
pub mod census;
pub mod cli;
pub mod clock;
pub mod config;
pub mod connector;
pub mod darkside;
pub mod engine;
pub mod enhance;
pub mod error;
pub mod events;
pub mod fetch;
pub mod ffi_handle;
pub mod graft;
pub mod graft_accumulator;
pub mod grpc;
pub mod lookup_build;
pub mod mempool;
pub mod migrations;
pub mod network;
pub mod oracle;
pub mod pallas;
pub mod text;
pub mod transaction;
pub use config::{AnchorRetention, Endpoint, EngineConfig};
pub use error::SlipstreamError;
pub use events::{Bound, Event, Progress, Snapshot, SyncMode};
pub use network::{CustomActivations, Network, SlipstreamNetwork};
use vstd::prelude::*;

verus! {

/// The name of the package.
pub const CRATE_NAME: &'static str = "zodl-slipstream";

} // verus!
