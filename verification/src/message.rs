//! The closed set of outbound message tags the core delivers, and the errors
//! it reports.

use vstd::prelude::*;

verus! {

/// A message the core can deliver to connections. The set of variants is
/// closed; any payload beyond the tag would be opaque to the core.
#[derive(Clone, Copy, Debug, PartialEq, Eq, Structural)]
pub enum Message {
    /// Liveness probe, broadcast to every connection handler.
    Ping,
    /// Ask the receiving connection to report its uptime.
    RequestUptimeReport,
    /// Ask the receiving connection to report its bandwidth.
    RequestBandwidthReport,
}

/// Why a global broadcast failed.
#[derive(Clone, Copy, Debug, PartialEq, Eq, Structural)]
pub enum BroadcastError {
    /// No consumer handle of the global channel currently exists.
    NoReceivers,
}

/// Why a best-effort send on one connection's private channel failed.
/// Either way the undelivered message is handed back.
#[derive(Clone, Copy, Debug, PartialEq, Eq, Structural)]
pub enum SendFailure {
    /// The channel's buffer is full: the peer is slow or stalled.
    Full(Message),
    /// The receiving end was dropped: the peer disconnected.
    Closed(Message),
}

} // verus!
