//! Verified core of a service uptime monitor.
//!
//! The library holds the logic of the monitor: the variable-length integer
//! codec of the binary handshake protocol, service identifier normalization,
//! handshake packet construction, the bounded response-time history with its
//! ring-buffer eviction, and the incident open/close state machine with its
//! failure debounce. The surrounding process (probing over the network,
//! durable storage, the polling loop) drives these functions and is not part
//! of the verified library.

pub mod codec;
pub mod identifier;
pub mod model;
pub mod probe;
pub mod protocol;
pub mod orchestrator;
pub mod store;
pub mod tracker;

use vstd::prelude::*;

verus! {

/// Error carried by the library's fallible operations; the field holds a
/// human-readable message.
#[derive(Debug, Clone)]
pub struct MonitoringError(pub String);

} // verus!
