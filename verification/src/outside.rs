//! The calls that this library makes into code that was not verified with
//! it. What is stated here of each is believed, not proved.

use event_listener::Event as Notifier;
use event_listener::EventListener as Listener;
use std::sync::Arc;
use tokio::sync::mpsc::error::SendError;
use tokio::sync::mpsc::{UnboundedReceiver, UnboundedSender};
use vstd::prelude::*;

verus! {

/// `Arc::clone` of std: a second pointer to the same allocation. The
/// value that the new pointer leads to is the value that the old one
/// leads to.
#[verifier::external_body]
pub(crate) fn share<T>(pointer: &Arc<T>) -> (shared: Arc<T>)
    ensures
        shared == pointer,
{
    Arc::clone(pointer)
}

/// `event_listener::Event`: a place where tasks wait to be woken. Nothing
/// is known of what it holds.
#[verifier::external_type_specification]
#[verifier::external_body]
pub struct ExNotifier(Notifier);

/// `event_listener::EventListener`: one registered wait for a wake-up.
/// Nothing is known of what it holds.
#[verifier::external_type_specification]
#[verifier::external_body]
pub struct ExListener(Listener);

/// `Event::new` of event_listener: a notifier without listeners. Nothing
/// is claimed of it.
#[verifier::external_body]
pub(crate) fn new_notifier() -> (made: Notifier) {
    Notifier::new()
}

/// `Event::notify` of event_listener: wakes listeners that are registered
/// now, up to the number given. It takes every number and returns
/// nothing; nothing is claimed of it.
pub assume_specification[ Notifier::notify ](notifier: &Notifier, n: usize)
;

/// `Event::listen` of event_listener: registers a listener for the next
/// wake-up. Nothing is claimed of the listener.
pub assume_specification[ Notifier::listen ](notifier: &Notifier) -> (listener: Listener)
;

/// `tokio::sync::mpsc::UnboundedSender`: the sending end of a queue.
/// Nothing is known of what it holds.
#[verifier::external_type_specification]
#[verifier::external_body]
#[verifier::reject_recursive_types(T)]
pub struct ExUnboundedSender<T>(UnboundedSender<T>);

/// `tokio::sync::mpsc::UnboundedReceiver`: the receiving end of a queue.
/// Nothing is known of what it holds.
#[verifier::external_type_specification]
#[verifier::external_body]
#[verifier::reject_recursive_types(T)]
pub struct ExUnboundedReceiver<T>(UnboundedReceiver<T>);

/// `tokio::sync::mpsc::error::SendError`: the refusal of a queue whose
/// receiving end is closed. Nothing is known of what it holds.
#[verifier::external_type_specification]
#[verifier::external_body]
#[verifier::reject_recursive_types(T)]
pub struct ExSendError<T>(SendError<T>);

/// `tokio::sync::mpsc::unbounded_channel`: the two ends of a new queue
/// without a bound. Nothing is claimed of them.
pub assume_specification<T>[ tokio::sync::mpsc::unbounded_channel::<T> ]() -> (ends: (
    UnboundedSender<T>,
    UnboundedReceiver<T>,
))
;

/// `UnboundedSender::send` of tokio: puts a message in the queue without
/// waiting, or refuses it where the receiving end is closed. Which of the
/// two happens depends on the other end, so nothing is claimed of the
/// result.
pub assume_specification<T>[ UnboundedSender::<T>::send ](
    sender: &UnboundedSender<T>,
    message: T,
) -> (sent: Result<(), SendError<T>>)
;

/// `Clone` for `UnboundedSender` of tokio: one more sender into the same
/// queue. Nothing is claimed of it.
pub assume_specification<T>[ <UnboundedSender<T> as Clone>::clone ](
    sender: &UnboundedSender<T>,
) -> (other: UnboundedSender<T>)
;

} // verus!
