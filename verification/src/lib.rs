//! Real-time fan-out and delivery core for a server that holds many
//! long-lived client connections.
//!
//! The library keeps a registry of live connections (each registered with the
//! sending end of its private outbound channel), a rotation queue used to
//! spread periodic batch requests fairly over the connected population, and a
//! global broadcast channel on which every connection handler listens.

use vstd::prelude::*;

pub mod application;
pub mod broadcaster;
pub mod channel;
pub mod key;
pub mod manager;
pub mod message;
pub mod queue;
pub mod registry;
pub mod rotation;

verus! {

/// Number of message slots the global broadcast channel is created with.
pub const GLOBAL_CHANNEL_CAPACITY: usize = 10000;

} // verus!
