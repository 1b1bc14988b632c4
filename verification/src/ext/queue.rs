//! `tokio`'s unbounded queue.

use tokio::sync::mpsc;
use vstd::prelude::*;

verus! {

/// `tokio::sync::mpsc::UnboundedSender`, the sending half of a queue; opaque.
#[verifier::external_type_specification]
#[verifier::external_body]
#[verifier::reject_recursive_types(T)]
pub struct ExUnboundedSender<T>(mpsc::UnboundedSender<T>);

/// `tokio::sync::mpsc::UnboundedReceiver`, the receiving half of a queue; opaque.
#[verifier::external_type_specification]
#[verifier::external_body]
#[verifier::reject_recursive_types(T)]
pub struct ExUnboundedReceiver<T>(mpsc::UnboundedReceiver<T>);

/// `tokio::sync::mpsc::unbounded_channel`: makes a queue. Nothing is claimed of the two halves.
pub assume_specification<T>[ mpsc::unbounded_channel::<T> ]() -> (halves: (
    mpsc::UnboundedSender<T>,
    mpsc::UnboundedReceiver<T>,
));

/// `UnboundedSender::clone`: another sender of the same queue. Nothing is claimed of it.
pub assume_specification<T>[ <mpsc::UnboundedSender<T> as Clone>::clone ](
    tx: &mpsc::UnboundedSender<T>,
) -> (copy: mpsc::UnboundedSender<T>);

/// `UnboundedSender::send`: hands the message to the queue, or gives that very message back where
/// the queue no longer takes any. Which of the two happens depends on whether the receiver is
/// still there, and is left open.
#[verifier::external_body]
pub(crate) fn enqueue<T>(tx: &mut mpsc::UnboundedSender<T>, message: T) -> (refused: Option<T>)
    ensures
        refused matches Some(m) ==> m == message,
{
    tx.send(message).err().map(|e| e.0)
}

/// `UnboundedReceiver::try_recv`: the next message, if one is queued. What the senders, anywhere in
/// the process, have queued is not known here, so nothing is claimed of the result.
#[verifier::external_body]
pub(crate) fn try_dequeue<T>(rx: &mut mpsc::UnboundedReceiver<T>) -> (message: Option<T>)
{
    rx.try_recv().ok()
}

}
