//! Channel connectivity state tracking.

use crate::ext::watch::{held_state, publish, published_states, watch_channel};
use tokio::sync::watch;
use vstd::prelude::*;

verus! {

/// Channel connectivity state.
#[derive(Debug, Clone, Copy, PartialEq, Eq, Hash, Structural)]
pub enum ChannelState {
    /// Channel is idle and not attempting to connect.
    /// This is the initial state for lazy channels, or after a connection failure.
    Idle,
    /// Channel is attempting to establish a connection.
    /// Includes TCP connect, TLS handshake, and HTTP/2 handshake.
    Connecting,
    /// Channel has successfully established a connection and is ready for RPCs.
    Connected,
}

impl ChannelState {
    /// The state's name.
    pub fn to_string(&self) -> (name: String)
        ensures
            name@ == (match *self {
                ChannelState::Idle => "IDLE"@,
                ChannelState::Connecting => "CONNECTING"@,
                ChannelState::Connected => "CONNECTED"@,
            }),
    {
        match self {
            ChannelState::Idle => "IDLE".to_string(),
            ChannelState::Connecting => "CONNECTING".to_string(),
            ChannelState::Connected => "CONNECTED".to_string(),
        }
    }
}

/// Puts a state in the place of the current one; whether that is a change.
pub fn apply(current: &mut ChannelState, state: ChannelState) -> (changed: bool)
    ensures
        changed == (*old(current) != state),
        *final(current) == state,
{
    if *current != state {
        *current = state;
        true
    } else {
        false
    }
}

/// What has been published once the state is set: the state too, unless it was the last already.
pub open spec fn published_after(
    published: Seq<ChannelState>,
    state: ChannelState,
) -> Seq<ChannelState> {
    if published.last() == state {
        published
    } else {
        published.push(state)
    }
}

/// What has been published once the states are set, one after the other.
pub open spec fn published_after_all(
    published: Seq<ChannelState>,
    states: Seq<ChannelState>,
) -> Seq<ChannelState>
    decreases states.len(),
{
    if states.len() == 0 {
        published
    } else {
        published_after(published_after_all(published, states.drop_last()), states.last())
    }
}

/// Tracker that updates channel connectivity state.
///
/// This is held by the channel's reconnect logic and used to broadcast state changes to all
/// observers.
pub struct ChannelStateTracker {
    sender: watch::Sender<ChannelState>,
}

impl ChannelStateTracker {
    /// The states that observers have been told of, after the initial one.
    pub closed spec fn published(&self) -> Seq<ChannelState> {
        published_states(self.sender)
    }

    /// Whether the receiver was made together with the tracker's sender, and so watches it.
    pub closed spec fn is_watched_by(
        &self,
        receiver: watch::Receiver<ChannelState>,
        initial: ChannelState,
    ) -> bool {
        call_ensures(watch_channel, (initial,), (self.sender, receiver))
    }

    /// Creates a new state tracker with the given initial state.
    ///
    /// Returns the tracker and a receiver that can be cloned and distributed to observers.
    pub fn new(initial: ChannelState) -> (made: (Self, watch::Receiver<ChannelState>))
        ensures
            made.0.published() == seq![initial],
            made.0.is_watched_by(made.1, initial),
    {
        let (sender, receiver) = watch_channel(initial);
        let tracker = ChannelStateTracker { sender };
        assert(call_ensures(watch_channel, (initial,), (tracker.sender, receiver)));
        (tracker, receiver)
    }

    /// Updates the connectivity state.
    ///
    /// Only sends a notification if the state actually changed.
    pub fn set(&mut self, state: ChannelState)
        ensures
            final(self).published() == published_after(old(self).published(), state),
    {
        let _ = publish(&mut self.sender, state);
    }

    /// Gets the current connectivity state.
    pub fn get(&self) -> (state: ChannelState)
        ensures
            state == self.published().last(),
    {
        held_state(&self.sender)
    }
}

/// Observers are told of changes only, and of every change: no state is published twice in a row,
/// the current state is the last that was set, and setting states leaves out those that repeat the
/// one before.
pub proof fn every_change_is_published_once(initial: ChannelState, states: Seq<ChannelState>)
    ensures
        ({
            let published = published_after_all(seq![initial], states);
            let all = seq![initial] + states;
            &&& published.len() > 0
            &&& published[0] == initial
            &&& published.last() == all.last()
            &&& forall|i: int|
                0 < i < published.len() ==> #[trigger] published[i] != published[i - 1]
            &&& forall|s: ChannelState|
                published.contains(s) <==> #[trigger] all.contains(s)
            &&& published.len() == 1 + changes(all)
        }),
    decreases states.len(),
{
    let all = seq![initial] + states;
    let published = published_after_all(seq![initial], states);
    if states.len() == 0 {
        assert(all =~= seq![initial]);
        assert(published =~= all);
        reveal_with_fuel(changes, 2);
    } else {
        every_change_is_published_once(initial, states.drop_last());
        let before = published_after_all(seq![initial], states.drop_last());
        let earlier = seq![initial] + states.drop_last();
        assert(all.drop_last() =~= earlier);
        assert(all[all.len() - 2] == earlier.last());
        assert forall|s: ChannelState| published.contains(s) <==> #[trigger] all.contains(s) by {
            assert(earlier.contains(s) <==> before.contains(s));
            if all.contains(s) {
                let i = choose|i: int| 0 <= i < all.len() && all[i] == s;
                if i < earlier.len() {
                    assert(earlier[i] == s);
                    let j = choose|j: int| 0 <= j < before.len() && before[j] == s;
                    assert(published[j] == s);
                } else {
                    assert(published[published.len() - 1] == s);
                }
            }
            if published.contains(s) {
                let j = choose|j: int| 0 <= j < published.len() && published[j] == s;
                if j < before.len() {
                    assert(before[j] == s);
                    let i = choose|i: int| 0 <= i < earlier.len() && earlier[i] == s;
                    assert(all[i] == s);
                } else {
                    assert(all[all.len() - 1] == s);
                }
            }
        }
    }
}

/// How often a state differs from the one before it.
pub open spec fn changes(states: Seq<ChannelState>) -> nat
    decreases states.len(),
{
    if states.len() < 2 {
        0
    } else {
        let n: nat = if states.last() != states[states.len() - 2] {
            1
        } else {
            0
        };
        changes(states.drop_last()) + n
    }
}

/// Setting a state makes it the current one, whatever it was before. Observers are told of it exactly
/// where it was another: then it is published behind what was published before, else nothing is.
pub proof fn the_state_that_is_set_is_the_current_one(
    state: ChannelState,
    before: ChannelState,
    after: ChannelState,
)
    ensures
        forall|tracker: &mut ChannelStateTracker, none: ()|
            #![trigger call_ensures(ChannelStateTracker::set, (tracker, state), none)]
            call_ensures(ChannelStateTracker::set, (tracker, state), none) && call_ensures(
                ChannelStateTracker::get,
                (&*tracker,),
                before,
            ) && call_ensures(ChannelStateTracker::get, (&*final(tracker),), after) ==> {
                &&& after == state
                &&& before != state ==> (*final(tracker)).published()
                    == (*tracker).published().push(state)
                &&& before == state ==> (*final(tracker)).published() == (*tracker).published()
            },
{
}

/// A tracker starts in the state that it was made with.
pub proof fn a_tracker_starts_in_its_initial_state(
    initial: ChannelState,
    made: (ChannelStateTracker, watch::Receiver<ChannelState>),
    state: ChannelState,
)
    requires
        call_ensures(ChannelStateTracker::new, (initial,), made),
        call_ensures(ChannelStateTracker::get, (&made.0,), state),
    ensures
        state == initial,
        made.0.published().len() == 1,
{
}

/// A change of the current state is told from none, and is made.
pub proof fn applying_a_state_makes_it_current(state: ChannelState, changed: bool)
    ensures
        forall|current: &mut ChannelState| #[trigger]
            call_ensures(apply, (current, state), changed) ==> *final(current) == state && (changed
                <==> *current != *final(current)),
{
}

/// States have names of their own.
pub proof fn states_have_names_of_their_own(
    a: ChannelState,
    b: ChannelState,
    name_of_a: String,
    name_of_b: String,
)
    requires
        call_ensures(ChannelState::to_string, (&a,), name_of_a),
        call_ensures(ChannelState::to_string, (&b,), name_of_b),
    ensures
        name_of_a@ == name_of_b@ <==> a == b,
        a == ChannelState::Idle ==> name_of_a@ == "IDLE"@,
        a == ChannelState::Connecting ==> name_of_a@ == "CONNECTING"@,
        a == ChannelState::Connected ==> name_of_a@ == "CONNECTED"@,
{
    reveal_strlit("IDLE");
    reveal_strlit("CONNECTING");
    reveal_strlit("CONNECTED");
    assert("IDLE"@.len() == 4);
    assert("CONNECTING"@.len() == 10);
    assert("CONNECTED"@.len() == 9);
}

}
