//! The event bus: one broadcast channel that every task publishes to and
//! every observer subscribes to. The channel is tokio's; it keeps a bounded
//! number of events for subscribers that are behind and drops the oldest
//! beyond that, so publishing never waits for a slow subscriber.
//!
//! Publishing succeeds once it is attempted, whether or not anyone listens.
//! An event that is published while nobody is subscribed is dropped, and a
//! subscription that is dropped changes nothing for the publisher: a task
//! runs to its end even if its observer has gone.
//!
//! The bus knows nothing of tasks and keys: every subscriber is handed every
//! event, and picks what it wants. Nothing keeps two tasks from running on
//! one resource at a time. Both then publish under the same key, and an
//! observer of that key sees the events of both, each task's own events in
//! order.

use crate::error::Failure;
use crate::model::SseEvent;
use tokio::sync::broadcast::{Receiver, Sender};
use vstd::prelude::*;

verus! {

/// The sending half of tokio's broadcast channel, `tokio::sync::broadcast::Sender`.
/// Nothing is said of what it holds.
#[verifier::external_type_specification]
#[verifier::external_body]
#[verifier::reject_recursive_types(T)]
pub struct ExSender<T>(Sender<T>);

/// The receiving half of tokio's broadcast channel,
/// `tokio::sync::broadcast::Receiver`. Nothing is said of what it holds.
#[verifier::external_type_specification]
#[verifier::external_body]
#[verifier::reject_recursive_types(T)]
pub struct ExReceiver<T>(Receiver<T>);

/// How many events the bus is asked to keep for a subscriber that is behind.
/// The channel keeps at least that many.
pub const BUS_CAPACITY: usize = 1000;

/// The capacity that the channel behind a sender was made with: the number of
/// events that `tokio::sync::broadcast::channel` was asked to keep for a
/// receiver that is behind. The channel keeps at least that many; it rounds
/// the number up to a power of two.
pub uninterp spec fn sender_capacity(tx: Sender<SseEvent>) -> nat;

/// The capacity that the channel behind a receiver was made with.
pub uninterp spec fn receiver_capacity(rx: Receiver<SseEvent>) -> nat;

/// Calls `tokio::sync::broadcast::channel` and keeps the sender; the first
/// receiver is dropped at once, so the channel starts without subscribers.
/// The call panics on a capacity of zero or of more than half of
/// `usize::MAX`, which `requires` leaves out. The channel that comes back
/// was made with the capacity given; nothing else is claimed of it.
#[verifier::external_body]
fn open_channel(capacity: usize) -> (tx: Sender<SseEvent>)
    requires
        0 < capacity <= usize::MAX / 2,
    ensures
        sender_capacity(tx) == capacity,
{
    let (tx, _) = tokio::sync::broadcast::channel::<SseEvent>(capacity);
    tx
}

/// Calls `tokio::sync::broadcast::Sender::send`. The call does not block. It
/// fails only when the channel has no receiver, and then hands the value
/// back; when it succeeds it returns the number of receivers, which is at
/// least one.
#[verifier::external_body]
fn send_event(tx: &Sender<SseEvent>, evt: SseEvent) -> (sent: Result<usize, SseEvent>)
    ensures
        sent matches Ok(receivers) ==> receivers >= 1,
        sent matches Err(back) ==> back == evt,
{
    match tx.send(evt) {
        Ok(receivers) => Ok(receivers),
        Err(refused) => Err(refused.0),
    }
}

/// Calls `tokio::sync::broadcast::Sender::subscribe`, which gives a new
/// receiver of the sender's own channel. The receiver sees what is sent
/// after the call; of that nothing is claimed here, only that the receiver
/// reads from the channel of the sender, made with the same capacity.
#[verifier::external_body]
fn subscribe_to(tx: &Sender<SseEvent>) -> (rx: Receiver<SseEvent>)
    ensures
        receiver_capacity(rx) == sender_capacity(*tx),
{
    tx.subscribe()
}

/// What publishing comes to, told from the answer of the channel: a success
/// either way, with the number of subscribers that the event was published
/// to. The channel hands the event back when nobody is subscribed; the event
/// is then dropped, and was published to no one.
pub open spec fn outcome_of(answer: Result<usize, SseEvent>) -> Result<usize, Failure> {
    match answer {
        Ok(receivers) => Ok(receivers),
        Err(_) => Ok(0),
    }
}

/// Tells what publishing comes to from the answer of the channel.
pub fn publish_outcome(answer: Result<usize, SseEvent>) -> (sent: Result<usize, Failure>)
    ensures
        sent == outcome_of(answer),
{
    match answer {
        Ok(receivers) => Ok(receivers),
        Err(_) => Ok(0),
    }
}

/// What the server shares among its requests: the sending side of the bus.
pub struct AppState {
    pub tx: Sender<SseEvent>,
}

impl AppState {
    /// The number of events that the bus was asked to keep for a subscriber
    /// that is behind.
    pub open spec fn capacity(&self) -> nat {
        sender_capacity(self.tx)
    }

    /// A bus without subscribers, asked to keep a thousand events for a
    /// subscriber that is behind.
    pub fn new() -> (state: AppState)
        ensures
            state.capacity() == BUS_CAPACITY,
    {
        AppState { tx: open_channel(BUS_CAPACITY) }
    }

    /// Publishes an event to all who are subscribed now. Publishing does not
    /// wait for anyone, and it succeeds whether or not anyone is subscribed.
    /// The number that comes back is the number of subscribers that the
    /// event was published to; it is zero if there was none, and the event
    /// is then dropped.
    pub fn publish(&self, evt: SseEvent) -> (sent: Result<usize, Failure>)
        ensures
            sent is Ok,
    {
        publish_outcome(send_event(&self.tx, evt))
    }

    /// Subscribes to the bus. The subscription is one of this bus: it keeps
    /// at least as many events for its reader as the bus was asked to keep.
    /// It sees the events that are published after this call and none that
    /// was published before it.
    pub fn subscribe(&self) -> (rx: Receiver<SseEvent>)
        ensures
            receiver_capacity(rx) == self.capacity(),
    {
        subscribe_to(&self.tx)
    }
}

} // verus!
