//! The trusted boundary around tokio's channel primitives.
//!
//! The core never owns a transport: it holds the cloneable sending end of
//! each connection's private bounded channel, and one long-lived producer
//! side of a global broadcast channel. Everything the library claims about
//! those handles is stated here, on thin wrappers around the tokio calls.

use vstd::prelude::*;

use crate::message::{Message, SendFailure};
use tokio::sync::broadcast;
use tokio::sync::mpsc;

verus! {

#[verifier::external_type_specification]
#[verifier::external_body]
#[verifier::reject_recursive_types(T)]
pub struct ExBroadcastSender<T>(broadcast::Sender<T>);

#[verifier::external_type_specification]
#[verifier::external_body]
#[verifier::reject_recursive_types(T)]
pub struct ExBroadcastReceiver<T>(broadcast::Receiver<T>);

#[verifier::external_type_specification]
#[verifier::external_body]
#[verifier::reject_recursive_types(T)]
pub struct ExMpscSender<T>(mpsc::Sender<T>);

/// Relies on `tokio::sync::broadcast::channel`: creates a broadcast channel
/// with room for `capacity` in-flight messages and returns its producer side.
/// The receiver half minted alongside it is dropped here, so the channel
/// starts with no consumers. The call panics when `capacity` is zero or
/// exceeds `usize::MAX / 2`, hence the bounds.
#[verifier::external_body]
pub(crate) fn new_global_sender(capacity: usize) -> broadcast::Sender<Message>
    requires
        1 <= capacity <= usize::MAX / 2,
{
    let (sender, _) = broadcast::channel(capacity);
    sender
}

/// Relies on `tokio::sync::broadcast::Sender::send`: on success the result is
/// the number of consumer handles alive at the moment of the send, which is
/// then at least one; the send fails only when no consumer handle exists, and
/// then hands the message back.
#[verifier::external_body]
pub(crate) fn global_send(
    sender: &broadcast::Sender<Message>,
    message: Message,
) -> (result: Result<usize, Message>)
    ensures
        result matches Ok(receivers) ==> receivers >= 1,
{
    match sender.send(message) {
        Ok(receivers) => Ok(receivers),
        Err(broadcast::error::SendError(unsent)) => Err(unsent),
    }
}

/// Relies on `tokio::sync::broadcast::Sender::subscribe`: mints a fresh,
/// independent consumer handle that observes every message published from
/// this moment forward.
#[verifier::external_body]
pub(crate) fn global_subscribe(
    sender: &broadcast::Sender<Message>,
) -> broadcast::Receiver<Message> {
    sender.subscribe()
}

/// Relies on `tokio::sync::mpsc::Sender::try_send`: attempts the send without
/// ever blocking; it fails exactly when the channel's buffer is full or its
/// receiving half is gone, handing the undelivered message back either way.
#[verifier::external_body]
pub(crate) fn socket_try_send(
    socket: &mpsc::Sender<Message>,
    message: Message,
) -> Result<(), SendFailure> {
    match socket.try_send(message) {
        Ok(()) => Ok(()),
        Err(mpsc::error::TrySendError::Full(unsent)) => Err(SendFailure::Full(unsent)),
        Err(mpsc::error::TrySendError::Closed(unsent)) => Err(SendFailure::Closed(unsent)),
    }
}

} // verus!
