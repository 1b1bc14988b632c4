//! `tokio`'s watched value, of a channel's state.

use crate::channel_state::{apply, published_after, ChannelState};
use tokio::sync::watch;
use vstd::prelude::*;

verus! {

/// `tokio::sync::watch::Sender`, which holds a value that others watch; opaque.
#[verifier::external_type_specification]
#[verifier::external_body]
#[verifier::reject_recursive_types(T)]
pub struct ExWatchSender<T>(watch::Sender<T>);

/// `tokio::sync::watch::Receiver`, through which a value is watched; opaque.
#[verifier::external_type_specification]
#[verifier::external_body]
#[verifier::reject_recursive_types(T)]
pub struct ExWatchReceiver<T>(watch::Receiver<T>);

/// The states that a sender has published, the first of which it was made with. Its receivers are
/// told of each of the others; the last is the one it holds.
pub uninterp spec fn published_states(tx: watch::Sender<ChannelState>) -> Seq<ChannelState>;

/// `watch::channel`: makes a watched value, and one receiver.
#[verifier::external_body]
pub(crate) fn watch_channel(initial: ChannelState) -> (halves: (
    watch::Sender<ChannelState>,
    watch::Receiver<ChannelState>,
))
    ensures
        published_states(halves.0) == seq![initial],
{
    watch::channel(initial)
}

/// `watch::Sender::send_if_modified`, with [`apply`]: runs it on the value that is held, and tells
/// the receivers if it returns `true`; returns what it returned. The value is that of this sender
/// alone: the sender is never cloned here.
#[verifier::external_body]
pub(crate) fn publish(tx: &mut watch::Sender<ChannelState>, state: ChannelState) -> (told: bool)
    ensures
        told == (published_states(*old(tx)).last() != state),
        published_states(*final(tx)) == published_after(published_states(*old(tx)), state),
{
    tx.send_if_modified(|current| apply(current, state))
}

/// `watch::Sender::borrow`: the value that is held, which is the last published.
#[verifier::external_body]
pub(crate) fn held_state(tx: &watch::Sender<ChannelState>) -> (state: ChannelState)
    ensures
        state == published_states(*tx).last(),
{
    *tx.borrow()
}

}
