//! The broadcast channel behind every room, as `tokio` provides it.
//!
//! A channel has one sending side, of which any number of handles may exist,
//! and any number of receivers. What travels through a channel, and how many
//! receivers are alive at a given moment, is decided while the server runs:
//! the contracts below promise nothing about it.

use tokio::sync::broadcast::{Receiver, Sender};
use vstd::prelude::*;

verus! {

#[verifier::external_type_specification]
#[verifier::external_body]
#[verifier::reject_recursive_types(T)]
pub struct ExSender<T>(Sender<T>);

#[verifier::external_type_specification]
#[verifier::external_body]
#[verifier::reject_recursive_types(T)]
pub struct ExReceiver<T>(Receiver<T>);

/// The number of messages a receiver may fall behind before it loses the oldest.
pub const ROOM_CAPACITY: usize = 16;

/// Opens a channel with `tokio::sync::broadcast::channel`, which hands back the
/// sending side and a first receiver. The call aborts on a capacity of zero or
/// above half the address space, so both are excluded.
#[verifier::external_body]
pub(crate) fn open_channel(capacity: usize) -> (ends: (Sender<String>, Receiver<String>))
    requires
        0 < capacity <= usize::MAX / 2,
{
    tokio::sync::broadcast::channel(capacity)
}

/// A further handle to the sending side, made with `Sender::clone`. The new
/// handle wraps the same shared channel as `sender` and nothing else.
#[verifier::external_body]
pub(crate) fn share_sender(sender: &Sender<String>) -> (handle: Sender<String>)
    ensures
        handle == *sender,
{
    sender.clone()
}

/// A new receiver made with `Sender::subscribe`; it sees what is sent from now
/// on. The call aborts only on a channel that already counts a quarter of the
/// address space in receivers, more than a machine can hold.
#[verifier::external_body]
pub(crate) fn subscribe(sender: &Sender<String>) -> (receiver: Receiver<String>)
{
    sender.subscribe()
}

/// The number of receivers alive right now, read with `Sender::receiver_count`.
#[verifier::external_body]
pub(crate) fn live_receivers(sender: &Sender<String>) -> (live: usize)
{
    sender.receiver_count()
}

/// Hands `message` to every live receiver with `Sender::send`. Returns how many
/// receivers were alive, or `None` when there was none and the message is lost.
#[verifier::external_body]
pub(crate) fn send_message(sender: &Sender<String>, message: String) -> (reached: Option<usize>)
{
    sender.send(message).ok()
}

} // verus!
