//! Load balancer.
//!
//! Receives endpoint updates, manages the connection lifecycle of the endpoints, and routes
//! requests to ready endpoints via a [`ChannelPicker`]. The connections themselves are made and
//! held by the balancer's owner, who gives each a handle.

use crate::endpoint::{one_more, AddressKey, EndpointAddress};
use crate::ext::maps::{
    entry_value, indexed_at, indexed_entries, indexed_get, indexed_insert, indexed_len,
    indexed_remove, new_indexed, position_of, with_entry, without_entry, KeyView,
};
use crate::lb::discover::{EndpointUpdate, Polled};
use crate::loadbalance::errors::LbError;
use crate::loadbalance::p2c::{
    a_ready_channel_is_picked, can_read, load_readings_of,
    the_most_loaded_channel_is_never_picked, ChannelPicker, P2cPicker,
};
use crate::metric::{always_lower, integers_compare_by_value};
use crate::sequences::lemma_concat_contains;
use crate::status::CallError;
use indexmap::IndexMap;
use vstd::prelude::*;

verus! {

/// What the balancer's owner is to do.
#[derive(Debug, Clone, PartialEq, Eq)]
pub enum LbAction {
    /// Give up the connection attempt.
    Cancel(u64),
    /// Drop the connection.
    Release(u64),
    /// Connect to the address, as the given attempt.
    Connect(EndpointAddress, u64),
}

/// An action, with the address as a mathematical value.
pub enum LbStep {
    Cancel(u64),
    Release(u64),
    Connect(KeyView, u64),
}

/// The action, with the address as a mathematical value.
pub open spec fn step_of(action: LbAction) -> LbStep {
    match action {
        LbAction::Cancel(attempt) => LbStep::Cancel(attempt),
        LbAction::Release(channel) => LbStep::Release(channel),
        LbAction::Connect(address, attempt) => LbStep::Connect(address.spec_key(), attempt),
    }
}

/// The actions, with the addresses as mathematical values.
pub open spec fn steps_of(actions: Seq<LbAction>) -> Seq<LbStep> {
    actions.map_values(|a: LbAction| step_of(a))
}

/// The endpoints that are being connected to, each with its attempt, those that are ready, each
/// with its connection, the number of the next attempt, and how many attempts have been started.
#[verifier::ext_equal]
pub struct LbState {
    pub connecting: Seq<(KeyView, u64)>,
    pub ready: Seq<(KeyView, u64)>,
    pub next_attempt: u64,
    pub started: nat,
}

/// Whether no two entries have the same key.
pub open spec fn distinct_keys(entries: Seq<(KeyView, u64)>) -> bool {
    forall|i: int, j: int|
        0 <= i < j < entries.len() ==> (#[trigger] entries[i]).0 != (#[trigger] entries[j]).0
}

/// The step that gives up an attempt, if there is one.
pub open spec fn cancel(attempt: Option<u64>) -> Seq<LbStep> {
    match attempt {
        Some(a) => seq![LbStep::Cancel(a)],
        None => Seq::empty(),
    }
}

/// The step that drops a connection, if there is one.
pub open spec fn release(channel: Option<u64>) -> Seq<LbStep> {
    match channel {
        Some(c) => seq![LbStep::Release(c)],
        None => Seq::empty(),
    }
}

impl LbState {
    /// Whether every attempt so far has a number of its own: numbers are used again only once all
    /// have been used.
    pub open spec fn numbers_are_fresh(self) -> bool {
        self.started <= u64::MAX
    }

    /// An endpoint is listed once, as connecting or as ready. Attempts are numbered from zero.
    pub open spec fn well_formed(self) -> bool {
        &&& self.next_attempt == self.started % 0x1_0000_0000_0000_0000
        &&& self.numbers_are_fresh() ==> forall|k: KeyView| #[trigger]
            entry_value(self.connecting, k) is Some ==> entry_value(self.connecting, k)->0
                < self.started
        &&& distinct_keys(self.connecting)
        &&& distinct_keys(self.ready)
        &&& forall|k: KeyView| #[trigger]
            entry_value(self.connecting, k) is Some ==> entry_value(self.ready, k) is None
    }

    /// Whether the endpoint is connecting or ready.
    pub open spec fn tracks(self, key: KeyView) -> bool {
        entry_value(self.connecting, key) is Some || entry_value(self.ready, key) is Some
    }

    /// The endpoint is neither connecting nor ready.
    pub open spec fn forget(self, key: KeyView) -> LbState {
        LbState {
            connecting: without_entry(self.connecting, key),
            ready: without_entry(self.ready, key),
            ..self
        }
    }

    /// What an update leads to: the endpoint's attempt and its connection are dropped, and an
    /// inserted one is connected to anew.
    pub open spec fn change(self, update: EndpointUpdate<KeyView, ()>) -> (LbState, Seq<LbStep>) {
        let key = update.spec_key();
        let forgotten = self.forget(key);
        let dropped = cancel(entry_value(self.connecting, key)) + release(
            entry_value(self.ready, key),
        );
        match update {
            EndpointUpdate::Insert(_, _) => (
                LbState {
                    connecting: with_entry(forgotten.connecting, key, self.next_attempt),
                    next_attempt: one_more(self.next_attempt),
                    started: self.started + 1,
                    ..forgotten
                },
                dropped.push(LbStep::Connect(key, self.next_attempt)),
            ),
            EndpointUpdate::Remove(_) => (forgotten, dropped),
        }
    }

    /// What a sequence of discovery results leads to; errors, here `None`, are passed over.
    pub open spec fn change_all(self, polled: Seq<Option<EndpointUpdate<KeyView, ()>>>) -> (
        LbState,
        Seq<LbStep>,
    )
        decreases polled.len(),
    {
        if polled.len() == 0 {
            (self, Seq::empty())
        } else {
            let (before, steps) = self.change_all(polled.drop_last());
            match polled.last() {
                Some(update) => {
                    let (after, more) = before.change(update);
                    (after, steps + more)
                },
                None => (before, steps),
            }
        }
    }

    /// What the completion of an attempt leads to: the endpoint is ready, unless the attempt is not
    /// the one under way.
    pub open spec fn connected(self, key: KeyView, attempt: u64, channel: u64) -> (
        LbState,
        Seq<LbStep>,
    ) {
        if entry_value(self.connecting, key) == Some(attempt) {
            (
                LbState {
                    connecting: without_entry(self.connecting, key),
                    ready: with_entry(self.ready, key, channel),
                    ..self
                },
                Seq::empty(),
            )
        } else {
            (self, seq![LbStep::Release(channel)])
        }
    }

    /// What a sequence of completions leads to.
    pub open spec fn connected_all(self, completed: Seq<(KeyView, u64, u64)>) -> (
        LbState,
        Seq<LbStep>,
    )
        decreases completed.len(),
    {
        if completed.len() == 0 {
            (self, Seq::empty())
        } else {
            let (before, steps) = self.connected_all(completed.drop_last());
            let (key, attempt, channel) = completed.last();
            let (after, more) = before.connected(key, attempt, channel);
            (after, steps + more)
        }
    }
}

/// A discovery result, with the address as a mathematical value and errors as `None`.
pub open spec fn polled_view<E>(polled: Result<EndpointUpdate<EndpointAddress, ()>, E>) -> Option<
    EndpointUpdate<KeyView, ()>,
> {
    match polled {
        Ok(EndpointUpdate::Insert(address, idle)) => Some(
            EndpointUpdate::Insert(address.spec_key(), idle),
        ),
        Ok(EndpointUpdate::Remove(address)) => Some(EndpointUpdate::Remove(address.spec_key())),
        Err(_) => None,
    }
}

/// The update that a poll of discovery has yielded, if it has, with the address as a mathematical
/// value.
pub open spec fn polled_update<E>(polled: Polled<EndpointAddress, (), E>) -> Option<
    EndpointUpdate<KeyView, ()>,
> {
    match polled {
        Polled::Update(result) => polled_view(result),
        _ => None,
    }
}

/// Discovery results, with the addresses as mathematical values and errors as `None`.
pub open spec fn polled_views<E>(
    polled: Seq<Result<EndpointUpdate<EndpointAddress, ()>, E>>,
) -> Seq<Option<EndpointUpdate<KeyView, ()>>> {
    polled.map_values(|p: Result<EndpointUpdate<EndpointAddress, ()>, E>| polled_view(p))
}

/// The attempt that a connection to the address was made in, and the handle of that connection.
pub struct Connected {
    pub address: EndpointAddress,
    pub attempt: u64,
    pub channel: u64,
}

/// The completions, with the addresses as mathematical values.
pub open spec fn connected_views(completed: Seq<Connected>) -> Seq<(KeyView, u64, u64)> {
    completed.map_values(|c: Connected| (c.address.spec_key(), c.attempt, c.channel))
}

/// The position of a key is that of the first entry under it.
proof fn lemma_position_of(entries: Seq<(KeyView, u64)>, key: KeyView)
    ensures
        match position_of(entries, key) {
            Some(i) => 0 <= i < entries.len() && entries[i].0 == key && forall|j: int|
                0 <= j < i ==> (#[trigger] entries[j]).0 != key,
            None => forall|j: int| 0 <= j < entries.len() ==> (#[trigger] entries[j]).0 != key,
        },
    decreases entries.len(),
{
    if entries.len() > 0 && entries[0].0 != key {
        let rest = entries.drop_first();
        lemma_position_of(rest, key);
        assert forall|j: int| 1 <= j < entries.len() implies #[trigger] entries[j] == rest[j
            - 1] by {}
    }
}

/// In a map, the entry under a key is the one that looking it up finds.
proof fn lemma_entry_found(entries: Seq<(KeyView, u64)>, i: int)
    requires
        distinct_keys(entries),
        0 <= i < entries.len(),
    ensures
        position_of(entries, entries[i].0) == Some(i),
        entry_value(entries, entries[i].0) == Some(entries[i].1),
{
    lemma_position_of(entries, entries[i].0);
}

/// Putting a value under a key changes that key's value and no other, and keeps keys distinct.
proof fn lemma_with_entry(entries: Seq<(KeyView, u64)>, key: KeyView, value: u64)
    requires
        distinct_keys(entries),
    ensures
        distinct_keys(with_entry(entries, key, value)),
        entry_value(with_entry(entries, key, value), key) == Some(value),
        forall|k: KeyView|
            k != key ==> #[trigger] entry_value(with_entry(entries, key, value), k) == entry_value(
                entries,
                k,
            ),
{
    let after = with_entry(entries, key, value);
    lemma_position_of(entries, key);
    assert(distinct_keys(after));
    let at = match position_of(entries, key) {
        Some(i) => i,
        None => entries.len() as int,
    };
    assert(after[at] == (key, value));
    lemma_entry_found(after, at);
    assert forall|k: KeyView| k != key implies #[trigger] entry_value(after, k) == entry_value(
        entries,
        k,
    ) by {
        lemma_position_of(entries, k);
        lemma_position_of(after, k);
        match position_of(entries, k) {
            Some(i) => {
                assert(after[i] == entries[i]);
                lemma_entry_found(after, i);
            },
            None => {
                match position_of(after, k) {
                    Some(j) => {
                        assert(after[j] == entries[j]);
                    },
                    None => {},
                }
            },
        }
    }
}

/// Removing an entry takes that key's value away and no other, and keeps keys distinct.
proof fn lemma_without_entry(entries: Seq<(KeyView, u64)>, key: KeyView)
    requires
        distinct_keys(entries),
    ensures
        distinct_keys(without_entry(entries, key)),
        entry_value(without_entry(entries, key), key) is None,
        forall|k: KeyView|
            k != key ==> #[trigger] entry_value(without_entry(entries, key), k) == entry_value(
                entries,
                k,
            ),
{
    let after = without_entry(entries, key);
    lemma_position_of(entries, key);
    lemma_position_of(after, key);
    match position_of(entries, key) {
        None => {},
        Some(p) => {
            let last = entries.len() - 1;
            assert forall|i: int| 0 <= i < after.len() implies #[trigger] after[i] == (if i == p {
                entries[last]
            } else {
                entries[i]
            }) by {}
            assert(distinct_keys(after));
            assert forall|k: KeyView| k != key implies #[trigger] entry_value(after, k)
                == entry_value(entries, k) by {
                lemma_position_of(entries, k);
                lemma_position_of(after, k);
                match position_of(entries, k) {
                    Some(i) => {
                        let j = if i == last {
                            p
                        } else {
                            i
                        };
                        assert(after[j] == entries[i]);
                        lemma_entry_found(after, j);
                    },
                    None => {
                        match position_of(after, k) {
                            Some(j) => {
                                assert(after[j] == entries[j] || after[j] == entries[last]);
                            },
                            None => {},
                        }
                    },
                }
            }
        },
    }
}

/// What an update comes to: an inserted endpoint is connecting, in a new attempt, and not ready; a
/// removed one is neither; any other endpoint stays what it was.
pub proof fn an_update_touches_its_endpoint_only(s: LbState, update: EndpointUpdate<KeyView, ()>)
    requires
        s.well_formed(),
    ensures
        ({
            let (t, steps) = s.change(update);
            let key = update.spec_key();
            &&& t.well_formed()
            &&& entry_value(t.ready, key) is None
            &&& entry_value(t.connecting, key) == (if update is Insert {
                Some(s.next_attempt)
            } else {
                None
            })
            &&& forall|k: KeyView|
                k != key ==> #[trigger] entry_value(t.connecting, k) == entry_value(
                    s.connecting,
                    k,
                )
            &&& forall|k: KeyView|
                k != key ==> #[trigger] entry_value(t.ready, k) == entry_value(s.ready, k)
        }),
{
    let key = update.spec_key();
    let f = s.forget(key);
    lemma_without_entry(s.connecting, key);
    lemma_without_entry(s.ready, key);
    assert(f.well_formed()) by {
        assert forall|k: KeyView| #[trigger] entry_value(f.connecting, k) is Some implies entry_value(
            f.ready,
            k,
        ) is None by {
            assert(entry_value(s.connecting, k) is Some);
        }
    }
    if update is Insert {
        lemma_with_entry(f.connecting, key, s.next_attempt);
        let t = s.change(update).0;
        assert forall|k: KeyView| #[trigger] entry_value(t.connecting, k) is Some implies entry_value(
            t.ready,
            k,
        ) is None by {
            if k != key {
                assert(entry_value(f.connecting, k) is Some);
            }
        }
    }
}

/// What a completion comes to: the endpoint is ready through the new connection if the attempt is
/// the one under way; else the connection is dropped and nothing changes. No other endpoint is
/// touched.
pub proof fn a_completion_touches_its_endpoint_only(
    s: LbState,
    key: KeyView,
    attempt: u64,
    channel: u64,
)
    requires
        s.well_formed(),
    ensures
        ({
            let (t, steps) = s.connected(key, attempt, channel);
            &&& t.well_formed()
            &&& if entry_value(s.connecting, key) == Some(attempt) {
                &&& entry_value(t.connecting, key) is None
                &&& entry_value(t.ready, key) == Some(channel)
                &&& steps == Seq::<LbStep>::empty()
            } else {
                &&& t == s
                &&& steps == seq![LbStep::Release(channel)]
            }
            &&& forall|k: KeyView|
                k != key ==> #[trigger] entry_value(t.connecting, k) == entry_value(
                    s.connecting,
                    k,
                )
            &&& forall|k: KeyView|
                k != key ==> #[trigger] entry_value(t.ready, k) == entry_value(s.ready, k)
        }),
{
    lemma_without_entry(s.connecting, key);
    lemma_with_entry(s.ready, key, channel);
    let t = s.connected(key, attempt, channel).0;
    assert forall|k: KeyView| #[trigger] entry_value(t.connecting, k) is Some implies entry_value(
        t.ready,
        k,
    ) is None by {
        assert(entry_value(s.connecting, k) is Some);
    }
}

/// A connection attempt that an update has overtaken comes to nothing: the connection that it makes
/// is dropped. So is that of any earlier attempt, as long as numbers are not used again.
pub proof fn an_overtaken_attempt_comes_to_nothing(
    s: LbState,
    update: EndpointUpdate<KeyView, ()>,
    attempt: u64,
    channel: u64,
)
    requires
        s.well_formed(),
        s.numbers_are_fresh(),
        entry_value(s.connecting, update.spec_key()) == Some(attempt) || attempt < s.started,
    ensures
        ({
            let (t, _) = s.change(update);
            t.connected(update.spec_key(), attempt, channel) == (
                t,
                seq![LbStep::Release(channel)],
            )
        }),
{
    an_update_touches_its_endpoint_only(s, update);
}

/// An inserted endpoint is ready once its attempt completes.
pub proof fn an_inserted_endpoint_becomes_ready(s: LbState, key: KeyView, channel: u64)
    requires
        s.well_formed(),
    ensures
        ({
            let (t, _) = s.change(EndpointUpdate::Insert(key, ()));
            let (u, steps) = t.connected(key, s.next_attempt, channel);
            &&& entry_value(u.ready, key) == Some(channel)
            &&& steps == Seq::<LbStep>::empty()
        }),
{
    an_update_touches_its_endpoint_only(s, EndpointUpdate::Insert(key, ()));
    let t = s.change(EndpointUpdate::Insert(key, ())).0;
    a_completion_touches_its_endpoint_only(t, key, s.next_attempt, channel);
}

/// Whether the last update about the endpoint, if there is one, inserts it.
pub open spec fn last_inserts(
    polled: Seq<Option<EndpointUpdate<KeyView, ()>>>,
    key: KeyView,
) -> Option<bool>
    decreases polled.len(),
{
    if polled.len() == 0 {
        None
    } else {
        match polled.last() {
            Some(update) if update.spec_key() == key => Some(update is Insert),
            _ => last_inserts(polled.drop_last(), key),
        }
    }
}

/// Whatever discovery yields and whatever attempts complete, the balancer stays with the topology: an
/// endpoint is connecting or ready exactly where the last update about it inserts it, and where no
/// update is about it, exactly where it was before.
pub proof fn the_balancer_follows_the_topology(
    s: LbState,
    polled: Seq<Option<EndpointUpdate<KeyView, ()>>>,
    completed: Seq<(KeyView, u64, u64)>,
    key: KeyView,
)
    requires
        s.well_formed(),
    ensures
        ({
            let t = s.change_all(polled).0;
            let u = t.connected_all(completed).0;
            &&& t.well_formed()
            &&& u.well_formed()
            &&& u.tracks(key) == t.tracks(key)
            &&& u.tracks(key) == (match last_inserts(polled, key) {
                Some(inserted) => inserted,
                None => s.tracks(key),
            })
        }),
{
    lemma_changes_track(s, polled, key);
    lemma_completions_track(s.change_all(polled).0, completed, key);
}

proof fn lemma_changes_track(
    s: LbState,
    polled: Seq<Option<EndpointUpdate<KeyView, ()>>>,
    key: KeyView,
)
    requires
        s.well_formed(),
    ensures
        s.change_all(polled).0.well_formed(),
        s.change_all(polled).0.tracks(key) == (match last_inserts(polled, key) {
            Some(inserted) => inserted,
            None => s.tracks(key),
        }),
    decreases polled.len(),
{
    if polled.len() > 0 {
        let rest = polled.drop_last();
        lemma_changes_track(s, rest, key);
        match polled.last() {
            Some(update) => {
                an_update_touches_its_endpoint_only(s.change_all(rest).0, update);
            },
            None => {},
        }
    }
}

proof fn lemma_completions_track(t: LbState, completed: Seq<(KeyView, u64, u64)>, key: KeyView)
    requires
        t.well_formed(),
    ensures
        t.connected_all(completed).0.well_formed(),
        t.connected_all(completed).0.tracks(key) == t.tracks(key),
    decreases completed.len(),
{
    if completed.len() > 0 {
        let rest = completed.drop_last();
        lemma_completions_track(t, rest, key);
        let (k, attempt, channel) = completed.last();
        a_completion_touches_its_endpoint_only(t.connected_all(rest).0, k, attempt, channel);
    }
}

/// Manages endpoint lifecycle and distributes requests across ready endpoints.
pub struct LoadBalancer<P> {
    /// In-flight connection attempts, keyed by endpoint address.
    connecting: IndexMap<AddressKey, u64>,
    /// Ready-to-serve channels, keyed by endpoint address.
    ready: IndexMap<AddressKey, u64>,
    next_attempt: u64,
    started: Ghost<nat>,
    /// Channel picker for load balancing.
    picker: P,
}

impl<P> LoadBalancer<P> {
    /// The endpoints and what has become of them.
    pub closed spec fn state(&self) -> LbState {
        LbState {
            connecting: indexed_entries(self.connecting),
            ready: indexed_entries(self.ready),
            next_attempt: self.next_attempt,
            started: self.started@,
        }
    }

    /// The picker.
    pub closed spec fn picker(&self) -> P {
        self.picker
    }

    /// Create a new load balancer with the given picker.
    pub fn new(picker: P) -> (balancer: Self)
        ensures
            balancer.picker() == picker,
            balancer.state() == (LbState {
                connecting: Seq::empty(),
                ready: Seq::empty(),
                next_attempt: 0,
                started: 0,
            }),
            balancer.state().well_formed(),
    {
        LoadBalancer {
            connecting: new_indexed(),
            ready: new_indexed(),
            next_attempt: 0,
            started: Ghost(0),
            picker,
        }
    }

    /// Returns the number of ready endpoints.
    pub fn ready_len(&self) -> (len: usize)
        ensures
            len == self.state().ready.len(),
    {
        indexed_len(&self.ready)
    }

    /// Returns the number of endpoints that are being connected to.
    pub fn connecting_len(&self) -> (len: usize)
        ensures
            len == self.state().connecting.len(),
    {
        indexed_len(&self.connecting)
    }

    /// Drops the endpoint's attempt and its connection.
    fn forget(&mut self, key: &AddressKey, actions: &mut Vec<LbAction>)
        ensures
            final(self).state() == old(self).state().forget(key@),
            final(self).picker() == old(self).picker(),
            steps_of(final(actions)@) == steps_of(old(actions)@) + (cancel(
                entry_value(old(self).state().connecting, key@),
            ) + release(entry_value(old(self).state().ready, key@))),
            old(actions)@.is_prefix_of(final(actions)@),
    {
        let ghost before = actions@;
        match indexed_remove(&mut self.connecting, key) {
            Some(attempt) => {
                actions.push(LbAction::Cancel(attempt));
            },
            None => {},
        }
        let ghost cancelled = actions@;
        match indexed_remove(&mut self.ready, key) {
            Some(channel) => {
                actions.push(LbAction::Release(channel));
            },
            None => {},
        }
        proof {
            let c = cancel(entry_value(old(self).state().connecting, key@));
            let r = release(entry_value(old(self).state().ready, key@));
            assert(steps_of(cancelled) =~= steps_of(before) + c);
            assert(steps_of(actions@) =~= steps_of(cancelled) + r);
            assert(steps_of(actions@) =~= steps_of(before) + (c + r));
        }
    }

    /// Takes in what one poll of the discovery stream has yielded, and adds what is to be done.
    /// Returns whether to poll on.
    pub fn on_discovered<E>(
        &mut self,
        polled: Polled<EndpointAddress, (), E>,
        actions: &mut Vec<LbAction>,
    ) -> (go_on: bool)
        requires
            old(self).state().well_formed(),
        ensures
            final(self).state().well_formed(),
            final(self).picker() == old(self).picker(),
            go_on == (polled is Update),
            match polled_update(polled) {
                Some(update) => {
                    let (after, more) = old(self).state().change(update);
                    final(self).state() == after && steps_of(final(actions)@) == steps_of(
                        old(actions)@,
                    ) + more
                },
                None => *final(self) == *old(self) && final(actions)@ == old(actions)@,
            },
            old(actions)@.is_prefix_of(final(actions)@),
            polled matches Polled::Update(Ok(EndpointUpdate::Insert(address, _)))
                ==> final(actions)@.last() == LbAction::Connect(
                address,
                old(self).state().next_attempt,
            ),
    {
        let ghost before = self.state();
        let ghost done = actions@;
        match polled {
            Polled::Update(Ok(EndpointUpdate::Insert(address, _idle))) => {
                let key = address.key();
                proof {
                    an_update_touches_its_endpoint_only(before, EndpointUpdate::Insert(key@, ()));
                }
                self.forget(&key, actions);
                let ghost dropped = actions@;
                let attempt = self.next_attempt;
                let _ = indexed_insert(&mut self.connecting, key, attempt);
                self.next_attempt = attempt.wrapping_add(1);
                self.started = Ghost((self.started@ + 1) as nat);
                actions.push(LbAction::Connect(address, attempt));
                proof {
                    let more = before.change(EndpointUpdate::Insert(key@, ())).1;
                    let connect = LbStep::Connect(key@, before.next_attempt);
                    assert(steps_of(actions@) =~= steps_of(dropped).push(connect));
                    assert(steps_of(actions@) =~= steps_of(done) + more);
                }
                true
            },
            Polled::Update(Ok(EndpointUpdate::Remove(address))) => {
                let key = address.key();
                proof {
                    an_update_touches_its_endpoint_only(before, EndpointUpdate::Remove(key@));
                }
                self.forget(&key, actions);
                true
            },
            // Discovery errors are passed over
            Polled::Update(Err(_)) => true,
            Polled::Exhausted | Polled::Pending => false,
        }
    }

    /// Takes in what the discovery stream has yielded, and says what is to be done.
    pub fn poll_discover<E>(
        &mut self,
        polled: Vec<Result<EndpointUpdate<EndpointAddress, ()>, E>>,
    ) -> (actions: Vec<LbAction>)
        requires
            old(self).state().well_formed(),
        ensures
            final(self).state().well_formed(),
            final(self).picker() == old(self).picker(),
            (final(self).state(), steps_of(actions@)) == old(self).state().change_all(
                polled_views(polled@),
            ),
    {
        let ghost all = polled@;
        let ghost views = polled_views(all);
        let ghost start = self.state();
        let mut actions: Vec<LbAction> = Vec::new();
        assert(views.take(0) =~= Seq::empty());
        assert(steps_of(actions@) =~= Seq::empty());
        for result in it: polled
            invariant
                it.seq() == all,
                views == polled_views(all),
                self.state().well_formed(),
                self.picker() == old(self).picker(),
                (self.state(), steps_of(actions@)) == start.change_all(
                    views.take(it.index() as int),
                ),
        {
            let ghost at = it.index() as int;
            proof {
                assert(views.take(at + 1).drop_last() =~= views.take(at));
                assert(views.take(at + 1).last() == polled_view(result));
            }
            let _ = self.on_discovered(Polled::Update(result), &mut actions);
        }
        assert(views.take(all.len() as int) =~= views);
        actions
    }

    /// Moves the endpoints whose connection attempts have completed into the ready set.
    pub fn poll_connecting(&mut self, completed: Vec<Connected>) -> (actions: Vec<LbAction>)
        requires
            old(self).state().well_formed(),
        ensures
            final(self).state().well_formed(),
            final(self).picker() == old(self).picker(),
            (final(self).state(), steps_of(actions@)) == old(self).state().connected_all(
                connected_views(completed@),
            ),
    {
        let ghost all = completed@;
        let ghost views = connected_views(all);
        let ghost start = self.state();
        let mut actions: Vec<LbAction> = Vec::new();
        assert(views.take(0) =~= Seq::empty());
        assert(steps_of(actions@) =~= Seq::empty());
        for c in it: completed
            invariant
                it.seq() == all,
                views == connected_views(all),
                self.state().well_formed(),
                self.picker() == old(self).picker(),
                (self.state(), steps_of(actions@)) == start.connected_all(
                    views.take(it.index() as int),
                ),
        {
            let ghost before = self.state();
            let ghost done = actions@;
            let ghost at = it.index() as int;
            let key = c.address.key();
            proof {
                assert(views.take(at + 1).drop_last() =~= views.take(at));
                assert(views.take(at + 1).last() == (key@, c.attempt, c.channel));
                a_completion_touches_its_endpoint_only(before, key@, c.attempt, c.channel);
            }
            let under_way = match indexed_get(&self.connecting, &key) {
                Some(attempt) => attempt == c.attempt,
                None => false,
            };
            if under_way {
                let _ = indexed_remove(&mut self.connecting, &key);
                let _ = indexed_insert(&mut self.ready, key, c.channel);
            } else {
                actions.push(LbAction::Release(c.channel));
            }
            proof {
                let more = before.connected(key@, c.attempt, c.channel).1;
                assert(steps_of(actions@) =~= steps_of(done) + more);
            }
        }
        assert(views.take(all.len() as int) =~= views);
        actions
    }

    /// Takes in discovery results, then completed connection attempts. The balancer is ready for
    /// requests whatever they are.
    pub fn poll_ready<E>(
        &mut self,
        polled: Vec<Result<EndpointUpdate<EndpointAddress, ()>, E>>,
        completed: Vec<Connected>,
    ) -> (actions: Vec<LbAction>)
        requires
            old(self).state().well_formed(),
        ensures
            final(self).state().well_formed(),
            final(self).picker() == old(self).picker(),
            ({
                let (middle, first) = old(self).state().change_all(polled_views(polled@));
                let (after, second) = middle.connected_all(connected_views(completed@));
                final(self).state() == after && steps_of(actions@) == first + second
            }),
    {
        let mut actions = self.poll_discover(polled);
        let ghost first = actions@;
        let mut more = self.poll_connecting(completed);
        let ghost second = more@;
        actions.append(&mut more);
        assert(steps_of(actions@) =~= steps_of(first) + steps_of(second));
        actions
    }

    /// Selects the channel that takes the request, by its handle.
    pub fn call<M, Req, F: Fn(u64) -> M>(&self, req: &Req, load: F) -> (channel: Result<
        u64,
        LbError,
    >) where P: ChannelPicker<M, Req>
        requires
            can_read(load, self.state().ready),
        ensures
            match channel {
                Ok(c) => exists|i: usize|
                    #[trigger] self.picker().allows(
                        req,
                        self.state().ready,
                        load_readings_of(load),
                        Some(i),
                    ) && i < self.state().ready.len() && self.state().ready[i as int].1 == c,
                Err(LbError::Unavailable) => self.picker().allows(
                    req,
                    self.state().ready,
                    load_readings_of(load),
                    None,
                ),
                Err(LbError::Precondition(message)) => message@ == "picker returned invalid index"@
                    && exists|i: usize|
                    #[trigger] self.picker().allows(
                        req,
                        self.state().ready,
                        load_readings_of(load),
                        Some(i),
                    ) && i >= self.state().ready.len(),
                Err(_) => false,
            },
    {
        let picked = self.picker.pick(req, &self.ready, load);
        assert(self.picker().allows(req, self.state().ready, load_readings_of(load), picked));
        match picked {
            Some(idx) => match indexed_at(&self.ready, idx) {
                Some(channel) => Ok(channel),
                None => Err(LbError::Precondition("picker returned invalid index")),
            },
            None => Err(LbError::Unavailable),
        }
    }
}

/// What a call to the balancer comes to: either an error, given out once, or the call to the channel
/// that was selected.
pub enum LbFuture {
    Error { error: Option<LbError> },
    Pending,
}

impl LbFuture {
    /// The future of a call to which the balancer has given its answer.
    pub fn new(channel: Result<u64, LbError>) -> (future: (LbFuture, Option<u64>))
        ensures
            future == (match channel {
                Ok(c) => (LbFuture::Pending, Some(c)),
                Err(e) => (LbFuture::Error { error: Some(e) }, None),
            }),
    {
        match channel {
            Ok(c) => (LbFuture::Pending, Some(c)),
            Err(e) => (LbFuture::Error { error: Some(e) }, None),
        }
    }

    /// What a poll yields, given what polling the call to the channel has yielded: `None` is yet to
    /// come.
    pub fn poll<T>(&mut self, inner: Option<Result<T, CallError>>) -> (output: Option<
        Result<T, LbError>,
    >)
        ensures
            match *old(self) {
                LbFuture::Error { error: Some(e) } => output == Some(Err::<T, LbError>(e))
                    && *final(self) == (LbFuture::Error { error: None }),
                LbFuture::Error { error: None } => {
                    &&& output matches Some(Err(LbError::Precondition(message)))
                    &&& message@ == "LbFuture::Error polled twice"@
                    &&& *final(self) == *old(self)
                },
                LbFuture::Pending => *final(self) == *old(self) && output == (match inner {
                    None => None,
                    Some(Ok(response)) => Some(Ok(response)),
                    Some(Err(e)) => Some(Err(LbError::LbChannelError(e))),
                }),
            },
    {
        match self {
            LbFuture::Error { error } => match error.take() {
                Some(e) => Some(Err(e)),
                None => Some(Err(LbError::Precondition("LbFuture::Error polled twice"))),
            },
            LbFuture::Pending => match inner {
                None => None,
                Some(Ok(response)) => Some(Ok(response)),
                Some(Err(e)) => Some(Err(LbError::LbChannelError(e))),
            },
        }
    }
}

/// Each endpoint that is inserted is connected to, whatever its address: the steps of its update hold
/// exactly one connection attempt, for that endpoint, and it is the one under which the endpoint is then
/// listed as connecting. Before it, the attempt that was under way is given up and the connection that
/// was ready is dropped, and nothing else is done.
pub proof fn an_inserted_endpoint_is_connected_to_once(s: LbState, key: KeyView)
    requires
        s.well_formed(),
    ensures
        ({
            let (t, steps) = s.change(EndpointUpdate::Insert(key, ()));
            &&& entry_value(t.connecting, key) is Some
            &&& entry_value(t.ready, key) is None
            &&& steps.len() > 0
            &&& steps.last() == LbStep::Connect(key, entry_value(t.connecting, key)->0)
            &&& forall|i: int| 0 <= i < steps.len() - 1 ==> !((#[trigger] steps[i]) is Connect)
            &&& forall|attempt: u64| #[trigger]
                steps.contains(LbStep::Cancel(attempt)) <==> entry_value(s.connecting, key) == Some(
                    attempt,
                )
            &&& forall|channel: u64| #[trigger]
                steps.contains(LbStep::Release(channel)) <==> entry_value(s.ready, key) == Some(
                    channel,
                )
            &&& steps.no_duplicates()
        }),
{
    let (t, steps) = s.change(EndpointUpdate::Insert(key, ()));
    an_update_touches_its_endpoint_only(s, EndpointUpdate::Insert(key, ()));
    match entry_value(s.connecting, key) {
        Some(attempt) => {
            assert(steps[0] == LbStep::Cancel(attempt));
        },
        None => {},
    }
    match entry_value(s.ready, key) {
        Some(channel) => {
            assert(steps[steps.len() - 2] == LbStep::Release(channel));
        },
        None => {},
    }
}

/// Attempts are numbered one by one: one that is started has the next number, and nothing else has one.
pub proof fn attempts_are_numbered_one_by_one(s: LbState, key: KeyView)
    ensures
        ({
            let t = s.change(EndpointUpdate::Insert(key, ())).0;
            let u = s.change(EndpointUpdate::Remove(key)).0;
            &&& s.next_attempt < u64::MAX ==> t.next_attempt == s.next_attempt + 1
            &&& s.next_attempt == u64::MAX ==> t.next_attempt == 0
            &&& t.started == s.started + 1
            &&& u.next_attempt == s.next_attempt
            &&& u.started == s.started
        }),
{
}

/// An endpoint that is removed is given up: its attempt is cancelled, its connection is dropped, and
/// nothing else is done.
pub proof fn a_removed_endpoint_is_given_up(s: LbState, key: KeyView)
    requires
        s.well_formed(),
    ensures
        ({
            let (t, steps) = s.change(EndpointUpdate::Remove(key));
            &&& entry_value(t.connecting, key) is None
            &&& entry_value(t.ready, key) is None
            &&& t.next_attempt == s.next_attempt
            &&& forall|attempt: u64|
                #[trigger] steps.contains(LbStep::Cancel(attempt)) <==> entry_value(
                    s.connecting,
                    key,
                ) == Some(attempt)
            &&& forall|channel: u64|
                #[trigger] steps.contains(LbStep::Release(channel)) <==> entry_value(s.ready, key)
                    == Some(channel)
            &&& forall|k: KeyView, attempt: u64|
                !#[trigger] steps.contains(LbStep::Connect(k, attempt))
            &&& steps.no_duplicates()
        }),
{
    let (t, steps) = s.change(EndpointUpdate::Remove(key));
    an_update_touches_its_endpoint_only(s, EndpointUpdate::Remove(key));
    match entry_value(s.connecting, key) {
        Some(attempt) => {
            assert(steps[0] == LbStep::Cancel(attempt));
        },
        None => {},
    }
    match entry_value(s.ready, key) {
        Some(channel) => {
            assert(steps[steps.len() - 1] == LbStep::Release(channel));
        },
        None => {},
    }
}

/// What is left of at most one step.
spec fn kept(part: Seq<LbStep>, keep: spec_fn(LbStep) -> bool) -> Seq<LbStep> {
    if part.len() > 0 && keep(part[0]) {
        part
    } else {
        Seq::empty()
    }
}

proof fn lemma_kept(part: Seq<LbStep>, keep: spec_fn(LbStep) -> bool)
    requires
        part.len() <= 1,
    ensures
        part.filter(keep) == kept(part, keep),
{
    reveal_with_fuel(Seq::filter, 2);
    if part.len() == 1 {
        assert(part.drop_last() =~= Seq::empty());
        assert(Seq::empty().push(part[0]) =~= part);
    }
}

/// What is left of the steps of an update is what is left of each of its parts.
proof fn lemma_filter_steps(
    s: LbState,
    update: EndpointUpdate<KeyView, ()>,
    keep: spec_fn(LbStep) -> bool,
)
    ensures
        ({
            let key = update.spec_key();
            let connect = if update is Insert {
                seq![LbStep::Connect(key, s.next_attempt)]
            } else {
                Seq::empty()
            };
            s.change(update).1.filter(keep) == kept(
                cancel(entry_value(s.connecting, key)),
                keep,
            ) + kept(release(entry_value(s.ready, key)), keep) + kept(connect, keep)
        }),
{
    let key = update.spec_key();
    let cancelled = cancel(entry_value(s.connecting, key));
    let released = release(entry_value(s.ready, key));
    let connect = if update is Insert {
        seq![LbStep::Connect(key, s.next_attempt)]
    } else {
        Seq::empty()
    };
    assert(s.change(update).1 =~= cancelled + released + connect);
    Seq::filter_distributes_over_add(cancelled + released, connect, keep);
    Seq::filter_distributes_over_add(cancelled, released, keep);
    lemma_kept(cancelled, keep);
    lemma_kept(released, keep);
    lemma_kept(connect, keep);
}

/// What a poll of discovery comes to that inserts an endpoint, of whatever kind of address: polling goes
/// on, and behind the actions that there were stand those that give up what the endpoint had and, last,
/// one that connects to its address. The endpoint is then connecting under the attempt of that action;
/// no other endpoint is touched.
pub proof fn discovering_an_endpoint_connects_to_it<P, E>(address: EndpointAddress, go_on: bool)
    ensures
        forall|lb: &mut LoadBalancer<P>, actions: &mut Vec<LbAction>|
            (*lb).state().well_formed() && #[trigger] call_ensures(
                LoadBalancer::<P>::on_discovered::<E>,
                (lb, Polled::Update(Ok(EndpointUpdate::Insert(address, ()))), actions),
                go_on,
            ) ==> {
                let (s, t) = ((*lb).state(), (*final(lb)).state());
                let key = address.spec_key();
                let (before, after) = ((*actions)@, (*final(actions))@);
                let dropped: int = (if entry_value(s.connecting, key) is Some {
                    1int
                } else {
                    0int
                }) + (if entry_value(s.ready, key) is Some {
                    1int
                } else {
                    0int
                });
                &&& go_on
                &&& t.well_formed()
                &&& entry_value(t.connecting, key) is Some
                &&& entry_value(t.ready, key) is None
                &&& after.last() == LbAction::Connect(address, entry_value(t.connecting, key)->0)
                &&& before.is_prefix_of(after)
                &&& after.len() == before.len() + dropped + 1
                &&& forall|attempt: u64|
                    entry_value(s.connecting, key) == Some(attempt) ==> #[trigger] after.contains(
                        LbAction::Cancel(attempt),
                    )
                &&& forall|channel: u64|
                    entry_value(s.ready, key) == Some(channel) ==> #[trigger] after.contains(
                        LbAction::Release(channel),
                    )
                &&& forall|k: KeyView|
                    k != key ==> #[trigger] entry_value(t.connecting, k) == entry_value(
                        s.connecting,
                        k,
                    )
                &&& forall|k: KeyView|
                    k != key ==> #[trigger] entry_value(t.ready, k) == entry_value(s.ready, k)
            },
{
    assert forall|lb: &mut LoadBalancer<P>, actions: &mut Vec<LbAction>|
        (*lb).state().well_formed() && #[trigger] call_ensures(
            LoadBalancer::<P>::on_discovered::<E>,
            (lb, Polled::Update(Ok(EndpointUpdate::Insert(address, ()))), actions),
            go_on,
        ) implies {
        let (s, t) = ((*lb).state(), (*final(lb)).state());
        let key = address.spec_key();
        let (before, after) = ((*actions)@, (*final(actions))@);
        let dropped: int = (if entry_value(s.connecting, key) is Some {
            1int
        } else {
            0int
        }) + (if entry_value(s.ready, key) is Some {
            1int
        } else {
            0int
        });
        &&& go_on
        &&& t.well_formed()
        &&& entry_value(t.connecting, key) is Some
        &&& entry_value(t.ready, key) is None
        &&& after.last() == LbAction::Connect(address, entry_value(t.connecting, key)->0)
        &&& before.is_prefix_of(after)
        &&& after.len() == before.len() + dropped + 1
        &&& forall|attempt: u64|
            entry_value(s.connecting, key) == Some(attempt) ==> #[trigger] after.contains(
                LbAction::Cancel(attempt),
            )
        &&& forall|channel: u64|
            entry_value(s.ready, key) == Some(channel) ==> #[trigger] after.contains(
                LbAction::Release(channel),
            )
        &&& forall|k: KeyView|
            k != key ==> #[trigger] entry_value(t.connecting, k) == entry_value(s.connecting, k)
        &&& forall|k: KeyView|
            k != key ==> #[trigger] entry_value(t.ready, k) == entry_value(s.ready, k)
    } by {
        let s = (*lb).state();
        let key = address.spec_key();
        let update = EndpointUpdate::Insert(key, ());
        let (before, after) = ((*actions)@, (*final(actions))@);
        let (t, more) = s.change(update);
        an_update_touches_its_endpoint_only(s, update);
        assert(steps_of(after) == steps_of(before) + more);
        assert(steps_of(after).len() == after.len());
        lemma_dropped_are_told(s, update, before, after);
    }
}

/// Among the actions of an update are those that give up the attempt and the connection of its endpoint.
proof fn lemma_dropped_are_told(
    s: LbState,
    update: EndpointUpdate<KeyView, ()>,
    before: Seq<LbAction>,
    after: Seq<LbAction>,
)
    requires
        steps_of(after) == steps_of(before) + s.change(update).1,
    ensures
        entry_value(s.connecting, update.spec_key()) matches Some(attempt) ==> after.contains(
            LbAction::Cancel(attempt),
        ),
        entry_value(s.ready, update.spec_key()) matches Some(channel) ==> after.contains(
            LbAction::Release(channel),
        ),
{
    let key = update.spec_key();
    let n = before.len() as int;
    assert(steps_of(after).len() == after.len());
    assert(steps_of(before).len() == n);
    match entry_value(s.connecting, key) {
        Some(attempt) => {
            assert(steps_of(after)[n] == LbStep::Cancel(attempt));
            assert(step_of(after[n]) == LbStep::Cancel(attempt));
            assert(after[n] == LbAction::Cancel(attempt));
        },
        None => {},
    }
    match entry_value(s.ready, key) {
        Some(channel) => {
            let at = n + cancel(entry_value(s.connecting, key)).len();
            assert(steps_of(after)[at] == LbStep::Release(channel));
            assert(step_of(after[at]) == LbStep::Release(channel));
            assert(after[at] == LbAction::Release(channel));
        },
        None => {},
    }
}

/// What a poll of discovery comes to that removes an endpoint, that fails, or that yields nothing.
/// A removed endpoint is neither connecting nor ready; what it had is given up, and no other endpoint is
/// touched. An error changes nothing, and polling goes on; where there is nothing more, polling ends.
pub proof fn other_polls_connect_to_nothing<P, E>(
    address: EndpointAddress,
    error: E,
    go_on: bool,
)
    ensures
        forall|lb: &mut LoadBalancer<P>, actions: &mut Vec<LbAction>|
            (*lb).state().well_formed() && #[trigger] call_ensures(
                LoadBalancer::<P>::on_discovered::<E>,
                (lb, Polled::Update(Ok(EndpointUpdate::Remove(address))), actions),
                go_on,
            ) ==> {
                let (s, t) = ((*lb).state(), (*final(lb)).state());
                let key = address.spec_key();
                let (before, after) = ((*actions)@, (*final(actions))@);
                let dropped: int = (if entry_value(s.connecting, key) is Some {
                    1int
                } else {
                    0int
                }) + (if entry_value(s.ready, key) is Some {
                    1int
                } else {
                    0int
                });
                &&& go_on
                &&& t.well_formed()
                &&& entry_value(t.connecting, key) is None
                &&& entry_value(t.ready, key) is None
                &&& before.is_prefix_of(after)
                &&& after.len() == before.len() + dropped
                &&& entry_value(s.connecting, key) matches Some(attempt) ==> after.contains(
                    LbAction::Cancel(attempt),
                )
                &&& entry_value(s.ready, key) matches Some(channel) ==> after.contains(
                    LbAction::Release(channel),
                )
                &&& forall|k: KeyView|
                    k != key ==> #[trigger] entry_value(t.connecting, k) == entry_value(
                        s.connecting,
                        k,
                    )
                &&& forall|k: KeyView|
                    k != key ==> #[trigger] entry_value(t.ready, k) == entry_value(s.ready, k)
            },
        forall|lb: &mut LoadBalancer<P>, actions: &mut Vec<LbAction>| #[trigger]
            call_ensures(
                LoadBalancer::<P>::on_discovered::<E>,
                (lb, Polled::Update(Err(error)), actions),
                go_on,
            ) ==> go_on && *final(lb) == *lb && (*final(actions))@ == (*actions)@,
        forall|lb: &mut LoadBalancer<P>, actions: &mut Vec<LbAction>| #[trigger]
            call_ensures(
                LoadBalancer::<P>::on_discovered::<E>,
                (lb, Polled::Exhausted, actions),
                go_on,
            ) ==> !go_on && *final(lb) == *lb && (*final(actions))@ == (*actions)@,
        forall|lb: &mut LoadBalancer<P>, actions: &mut Vec<LbAction>| #[trigger]
            call_ensures(
                LoadBalancer::<P>::on_discovered::<E>,
                (lb, Polled::Pending, actions),
                go_on,
            ) ==> !go_on && *final(lb) == *lb && (*final(actions))@ == (*actions)@,
{
    assert forall|lb: &mut LoadBalancer<P>, actions: &mut Vec<LbAction>|
        (*lb).state().well_formed() && #[trigger] call_ensures(
            LoadBalancer::<P>::on_discovered::<E>,
            (lb, Polled::Update(Ok(EndpointUpdate::Remove(address))), actions),
            go_on,
        ) implies {
        let (s, t) = ((*lb).state(), (*final(lb)).state());
        let key = address.spec_key();
        let (before, after) = ((*actions)@, (*final(actions))@);
        let dropped: int = (if entry_value(s.connecting, key) is Some {
            1int
        } else {
            0int
        }) + (if entry_value(s.ready, key) is Some {
            1int
        } else {
            0int
        });
        &&& go_on
        &&& t.well_formed()
        &&& entry_value(t.connecting, key) is None
        &&& entry_value(t.ready, key) is None
        &&& before.is_prefix_of(after)
        &&& after.len() == before.len() + dropped
        &&& entry_value(s.connecting, key) matches Some(attempt) ==> after.contains(
            LbAction::Cancel(attempt),
        )
        &&& entry_value(s.ready, key) matches Some(channel) ==> after.contains(
            LbAction::Release(channel),
        )
        &&& forall|k: KeyView|
            k != key ==> #[trigger] entry_value(t.connecting, k) == entry_value(s.connecting, k)
        &&& forall|k: KeyView|
            k != key ==> #[trigger] entry_value(t.ready, k) == entry_value(s.ready, k)
    } by {
        let s = (*lb).state();
        let update = EndpointUpdate::Remove(address.spec_key());
        let (before, after) = ((*actions)@, (*final(actions))@);
        an_update_touches_its_endpoint_only(s, update);
        assert(steps_of(after) == steps_of(before) + s.change(update).1);
        assert(steps_of(after).len() == after.len());
        lemma_dropped_are_told(s, update, before, after);
    }
}

/// Over a sequence of discovery results, nobody is forgotten: an endpoint that is connecting afterwards
/// under another attempt than before has the connection of that attempt among the steps. An attempt that
/// is no longer under way has been given up, a connection that is no longer ready has been dropped, and
/// no connection is dropped that was not ready.
pub proof fn discovery_starts_and_gives_up_what_it_says(
    s: LbState,
    polled: Seq<Option<EndpointUpdate<KeyView, ()>>>,
)
    requires
        s.well_formed(),
    ensures
        ({
            let (t, steps) = s.change_all(polled);
            &&& t.well_formed()
            &&& forall|k: KeyView|
                (#[trigger] entry_value(t.connecting, k)) is Some && entry_value(t.connecting, k)
                    != entry_value(s.connecting, k) ==> steps.contains(
                    LbStep::Connect(k, entry_value(t.connecting, k)->0),
                )
            &&& forall|k: KeyView|
                (#[trigger] entry_value(s.connecting, k)) is Some && entry_value(t.connecting, k)
                    != entry_value(s.connecting, k) ==> steps.contains(
                    LbStep::Cancel(entry_value(s.connecting, k)->0),
                )
            &&& forall|k: KeyView|
                (#[trigger] entry_value(s.ready, k)) is Some && entry_value(t.ready, k)
                    != entry_value(s.ready, k) ==> steps.contains(
                    LbStep::Release(entry_value(s.ready, k)->0),
                )
            &&& forall|k: KeyView|
                (#[trigger] entry_value(t.ready, k)) is Some ==> entry_value(t.ready, k)
                    == entry_value(s.ready, k)
            &&& forall|channel: u64| #[trigger]
                steps.contains(LbStep::Release(channel)) ==> exists|k: KeyView| #[trigger]
                    entry_value(s.ready, k) == Some(channel)
        }),
    decreases polled.len(),
{
    if polled.len() > 0 {
        let rest = polled.drop_last();
        discovery_starts_and_gives_up_what_it_says(s, rest);
        let (m, steps) = s.change_all(rest);
        let (t, all) = s.change_all(polled);
        match polled.last() {
            Some(update) => {
                let key = update.spec_key();
                let more = m.change(update).1;
                an_update_touches_its_endpoint_only(m, update);
                lemma_concat_contains(steps, more);
                match entry_value(m.connecting, key) {
                    Some(attempt) => {
                        assert(more[0] == LbStep::Cancel(attempt));
                        assert(more.contains(LbStep::Cancel(attempt)));
                    },
                    None => {},
                }
                match entry_value(m.ready, key) {
                    Some(channel) => {
                        let at = cancel(entry_value(m.connecting, key)).len() as int;
                        assert(more[at] == LbStep::Release(channel));
                        assert(more.contains(LbStep::Release(channel)));
                    },
                    None => {},
                }
                if update is Insert {
                    assert(more[more.len() - 1] == LbStep::Connect(key, m.next_attempt));
                    assert(more.contains(LbStep::Connect(key, m.next_attempt)));
                }
                assert forall|channel: u64| #[trigger]
                    all.contains(LbStep::Release(channel)) implies exists|k: KeyView| #[trigger]
                    entry_value(s.ready, k) == Some(channel) by {
                    if more.contains(LbStep::Release(channel)) {
                        assert(entry_value(m.ready, key) == Some(channel));
                        assert(entry_value(s.ready, key) == Some(channel));
                    } else {
                        assert(steps.contains(LbStep::Release(channel)));
                    }
                }
            },
            None => {},
        }
    }
}

/// Over a sequence of discovery results, as many connections are started as endpoints are inserted.
pub proof fn each_insertion_starts_one_connection(
    s: LbState,
    polled: Seq<Option<EndpointUpdate<KeyView, ()>>>,
)
    requires
        s.well_formed(),
    ensures
        s.change_all(polled).1.filter(|x: LbStep| x is Connect).len() == polled.filter(
            |p: Option<EndpointUpdate<KeyView, ()>>| p is Some && p->0 is Insert,
        ).len(),
    decreases polled.len(),
{
    let is_connect = |x: LbStep| x is Connect;
    let inserts = |p: Option<EndpointUpdate<KeyView, ()>>| p is Some && p->0 is Insert;
    reveal(Seq::filter);
    if polled.len() > 0 {
        let rest = polled.drop_last();
        let (m, steps) = s.change_all(rest);
        each_insertion_starts_one_connection(s, rest);
        match polled.last() {
            Some(update) => {
                let more = m.change(update).1;
                Seq::filter_distributes_over_add(steps, more, is_connect);
                lemma_filter_steps(m, update, is_connect);
            },
            None => {},
        }
    }
}

/// Whatever discovery yields, every address that is inserted, of whatever kind, is among those that are
/// connected to; and as long as no later result is about it, it is connecting afterwards under that
/// attempt.
pub proof fn every_discovered_address_is_connected_to<P, E>(
    polled: Vec<Result<EndpointUpdate<EndpointAddress, ()>, E>>,
    i: int,
    address: EndpointAddress,
    actions: Vec<LbAction>,
)
    requires
        0 <= i < polled@.len(),
        polled@[i] == Ok::<EndpointUpdate<EndpointAddress, ()>, E>(
            EndpointUpdate::Insert(address, ()),
        ),
        forall|j: int|
            i < j < polled@.len() ==> match #[trigger] polled@[j] {
                Ok(EndpointUpdate::Insert(other, _)) => other.spec_key() != address.spec_key(),
                Ok(EndpointUpdate::Remove(other)) => other.spec_key() != address.spec_key(),
                Err(_) => true,
            },
    ensures
        forall|lb: &mut LoadBalancer<P>|
            (*lb).state().well_formed() && #[trigger] call_ensures(
                LoadBalancer::<P>::poll_discover::<E>,
                (lb, polled),
                actions,
            ) ==> {
                let t = (*final(lb)).state();
                &&& t.well_formed()
                &&& entry_value(t.connecting, address.spec_key()) is Some
                &&& entry_value(t.ready, address.spec_key()) is None
                &&& exists|n: int|
                    0 <= n < actions@.len() && ((#[trigger] actions@[n]) matches LbAction::Connect(
                        to,
                        attempt,
                    ) && to.spec_key() == address.spec_key() && entry_value(
                        t.connecting,
                        address.spec_key(),
                    ) == Some(attempt))
            },
{
    let views = polled_views(polled@);
    let key = address.spec_key();
    assert forall|lb: &mut LoadBalancer<P>|
        (*lb).state().well_formed() && #[trigger] call_ensures(
            LoadBalancer::<P>::poll_discover::<E>,
            (lb, polled),
            actions,
        ) implies {
        let t = (*final(lb)).state();
        &&& t.well_formed()
        &&& entry_value(t.connecting, key) is Some
        &&& entry_value(t.ready, key) is None
        &&& exists|n: int|
            0 <= n < actions@.len() && ((#[trigger] actions@[n]) matches LbAction::Connect(
                to,
                attempt,
            ) && to.spec_key() == key && entry_value(t.connecting, key) == Some(attempt))
    } by {
        let s = (*lb).state();
        let t = (*final(lb)).state();
        assert((t, steps_of(actions@)) == s.change_all(views));
        assert(views[i] == Some(EndpointUpdate::Insert(key, ())));
        assert forall|j: int| i < j < views.len() implies ((#[trigger] views[j]) matches Some(u)
            ==> u.spec_key() != key) by {
            assert(views[j] == polled_view(polled@[j]));
        }
        lemma_last_insert_is_connected(s, views, i, key);
        let step = LbStep::Connect(key, entry_value(t.connecting, key)->0);
        assert(steps_of(actions@).contains(step));
        let n = choose|n: int| 0 <= n < steps_of(actions@).len() && steps_of(actions@)[n] == step;
        assert(step_of(actions@[n]) == step);
    }
}

/// An endpoint that is inserted, and that no later result is about, is connecting afterwards, and the
/// steps hold the connection of its attempt.
proof fn lemma_last_insert_is_connected(
    s: LbState,
    polled: Seq<Option<EndpointUpdate<KeyView, ()>>>,
    i: int,
    key: KeyView,
)
    requires
        s.well_formed(),
        0 <= i < polled.len(),
        polled[i] == Some(EndpointUpdate::Insert(key, ())),
        forall|j: int|
            i < j < polled.len() ==> ((#[trigger] polled[j]) matches Some(u) ==> u.spec_key()
                != key),
    ensures
        s.change_all(polled).0.well_formed(),
        entry_value(s.change_all(polled).0.ready, key) is None,
        entry_value(s.change_all(polled).0.connecting, key) matches Some(attempt)
            && s.change_all(polled).1.contains(LbStep::Connect(key, attempt)),
    decreases polled.len(),
{
    let rest = polled.drop_last();
    let (m, steps) = s.change_all(rest);
    discovery_starts_and_gives_up_what_it_says(s, rest);
    if i == polled.len() - 1 {
        let update = EndpointUpdate::Insert(key, ());
        let more = m.change(update).1;
        an_update_touches_its_endpoint_only(m, update);
        lemma_concat_contains(steps, more);
        assert(more[more.len() - 1] == LbStep::Connect(key, m.next_attempt));
    } else {
        assert forall|j: int| i < j < rest.len() implies ((#[trigger] rest[j]) matches Some(u)
            ==> u.spec_key() != key) by {
            assert(rest[j] == polled[j]);
        }
        lemma_last_insert_is_connected(s, rest, i, key);
        match polled.last() {
            Some(update) => {
                assert(polled[polled.len() - 1] matches Some(u) ==> u.spec_key() != key);
                an_update_touches_its_endpoint_only(m, update);
                lemma_concat_contains(steps, m.change(update).1);
            },
            None => {},
        }
    }
}

/// An endpoint stays what it is as long as the attempt under which it is connecting does not complete:
/// connections of other endpoints, of other attempts, or for an endpoint that is not connecting, are
/// nothing to it.
pub proof fn other_completions_leave_an_endpoint_alone(
    s: LbState,
    completed: Seq<(KeyView, u64, u64)>,
    key: KeyView,
)
    requires
        s.well_formed(),
        forall|i: int|
            0 <= i < completed.len() && (#[trigger] completed[i]).0 == key ==> entry_value(
                s.connecting,
                key,
            ) != Some(completed[i].1),
    ensures
        ({
            let t = s.connected_all(completed).0;
            &&& t.well_formed()
            &&& entry_value(t.connecting, key) == entry_value(s.connecting, key)
            &&& entry_value(t.ready, key) == entry_value(s.ready, key)
        }),
    decreases completed.len(),
{
    if completed.len() > 0 {
        let rest = completed.drop_last();
        assert(forall|i: int| 0 <= i < rest.len() ==> #[trigger] rest[i] == completed[i]);
        other_completions_leave_an_endpoint_alone(s, rest, key);
        let (k, attempt, channel) = completed[completed.len() - 1];
        a_completion_touches_its_endpoint_only(s.connected_all(rest).0, k, attempt, channel);
    }
}

/// An endpoint becomes ready through the first connection that completes the attempt under which it is
/// connecting, and stays ready through it, whatever else completes.
pub proof fn the_first_completion_makes_ready(
    s: LbState,
    completed: Seq<(KeyView, u64, u64)>,
    i: int,
)
    requires
        s.well_formed(),
        0 <= i < completed.len(),
        entry_value(s.connecting, completed[i].0) == Some(completed[i].1),
        forall|j: int|
            0 <= j < i && (#[trigger] completed[j]).0 == completed[i].0 ==> completed[j].1
                != completed[i].1,
    ensures
        ({
            let t = s.connected_all(completed).0;
            &&& t.well_formed()
            &&& entry_value(t.connecting, completed[i].0) is None
            &&& entry_value(t.ready, completed[i].0) == Some(completed[i].2)
        }),
    decreases completed.len(),
{
    let rest = completed.drop_last();
    let (k, attempt, channel) = completed[completed.len() - 1];
    assert(forall|j: int| 0 <= j < rest.len() ==> #[trigger] rest[j] == completed[j]);
    if i == completed.len() - 1 {
        other_completions_leave_an_endpoint_alone(s, rest, k);
    } else {
        the_first_completion_makes_ready(s, rest, i);
    }
    a_completion_touches_its_endpoint_only(s.connected_all(rest).0, k, attempt, channel);
}

/// No connection is lost: each that was made is the one through which its endpoint is ready, or is
/// dropped. Nothing is dropped but connections that were made.
pub proof fn no_connection_is_lost(s: LbState, completed: Seq<(KeyView, u64, u64)>)
    requires
        s.well_formed(),
    ensures
        ({
            let (t, steps) = s.connected_all(completed);
            &&& t.well_formed()
            &&& forall|i: int|
                0 <= i < completed.len() ==> entry_value(t.ready, (#[trigger] completed[i]).0)
                    == Some(completed[i].2) || steps.contains(LbStep::Release(completed[i].2))
            &&& forall|x: LbStep| #[trigger]
                steps.contains(x) ==> exists|i: int|
                    0 <= i < completed.len() && x == LbStep::Release((#[trigger] completed[i]).2)
        }),
    decreases completed.len(),
{
    if completed.len() > 0 {
        let rest = completed.drop_last();
        let (m, steps) = s.connected_all(rest);
        let (k, attempt, channel) = completed[completed.len() - 1];
        let more = m.connected(k, attempt, channel).1;
        let (t, all) = s.connected_all(completed);
        no_connection_is_lost(s, rest);
        a_completion_touches_its_endpoint_only(m, k, attempt, channel);
        lemma_concat_contains(steps, more);
        assert(forall|i: int| 0 <= i < rest.len() ==> #[trigger] rest[i] == completed[i]);
        let under_way = entry_value(m.connecting, k) == Some(attempt);
        if !under_way {
            assert(more[0] == LbStep::Release(channel));
            assert(more.contains(LbStep::Release(channel)));
        }
        assert forall|i: int| 0 <= i < completed.len() implies entry_value(
            t.ready,
            (#[trigger] completed[i]).0,
        ) == Some(completed[i].2) || all.contains(LbStep::Release(completed[i].2)) by {
            if i < rest.len() {
                assert(rest[i] == completed[i]);
                if entry_value(m.ready, rest[i].0) == Some(rest[i].2) && under_way {
                    assert(entry_value(m.connecting, k) is Some);
                    assert(rest[i].0 != k);
                }
            }
        }
        assert forall|x: LbStep| #[trigger] all.contains(x) implies exists|i: int|
            0 <= i < completed.len() && x == LbStep::Release((#[trigger] completed[i]).2) by {
            if steps.contains(x) {
                let i = choose|i: int|
                    0 <= i < rest.len() && x == LbStep::Release((#[trigger] rest[i]).2);
                assert(completed[i] == rest[i]);
            } else {
                assert(more.contains(x));
                assert(x == LbStep::Release(completed[completed.len() - 1].2));
            }
        }
    }
}

/// Completed connections become ready by their own address and attempt: where an endpoint is connecting
/// under the attempt of a completion, and no earlier completion is of that attempt, the endpoint is
/// ready afterwards through the completion's connection. A completion of another attempt, or of an
/// endpoint that is not connecting, is dropped.
pub proof fn a_completed_connection_becomes_ready<P>(
    completed: Vec<Connected>,
    i: int,
    actions: Vec<LbAction>,
)
    requires
        0 <= i < completed@.len(),
    ensures
        forall|lb: &mut LoadBalancer<P>|
            (*lb).state().well_formed() && #[trigger] call_ensures(
                LoadBalancer::<P>::poll_connecting,
                (lb, completed),
                actions,
            ) ==> {
                let (s, t) = ((*lb).state(), (*final(lb)).state());
                let c = completed@[i];
                let key = c.address.spec_key();
                &&& t.well_formed()
                &&& entry_value(s.connecting, key) == Some(c.attempt) && (forall|j: int|
                    0 <= j < i ==> !((#[trigger] completed@[j]).address.spec_key() == key
                        && completed@[j].attempt == c.attempt)) ==> entry_value(t.ready, key)
                    == Some(c.channel) && entry_value(t.connecting, key) is None
                &&& entry_value(s.connecting, key) != Some(c.attempt) ==> entry_value(t.ready, key)
                    == Some(c.channel) || actions@.contains(LbAction::Release(c.channel))
            },
{
    let views = connected_views(completed@);
    let c = completed@[i];
    let key = c.address.spec_key();
    assert forall|lb: &mut LoadBalancer<P>|
        (*lb).state().well_formed() && #[trigger] call_ensures(
            LoadBalancer::<P>::poll_connecting,
            (lb, completed),
            actions,
        ) implies {
        let (s, t) = ((*lb).state(), (*final(lb)).state());
        &&& t.well_formed()
        &&& entry_value(s.connecting, key) == Some(c.attempt) && (forall|j: int|
            0 <= j < i ==> !((#[trigger] completed@[j]).address.spec_key() == key
                && completed@[j].attempt == c.attempt)) ==> entry_value(t.ready, key) == Some(
            c.channel,
        ) && entry_value(t.connecting, key) is None
        &&& entry_value(s.connecting, key) != Some(c.attempt) ==> entry_value(t.ready, key) == Some(
            c.channel,
        ) || actions@.contains(LbAction::Release(c.channel))
    } by {
        let (s, t) = ((*lb).state(), (*final(lb)).state());
        assert((t, steps_of(actions@)) == s.connected_all(views));
        no_connection_is_lost(s, views);
        assert(views[i] == (key, c.attempt, c.channel));
        if entry_value(s.connecting, key) == Some(c.attempt) && forall|j: int|
            0 <= j < i ==> !((#[trigger] completed@[j]).address.spec_key() == key
                && completed@[j].attempt == c.attempt) {
            assert forall|j: int| 0 <= j < i implies !((#[trigger] views[j]).0 == key && views[j].1
                == c.attempt) by {
                assert(views[j].0 == completed@[j].address.spec_key());
            }
            the_first_completion_makes_ready(s, views, i);
        }
        let step = LbStep::Release(c.channel);
        if steps_of(actions@).contains(step) {
            let n = choose|n: int|
                0 <= n < steps_of(actions@).len() && steps_of(actions@)[n] == step;
            assert(step_of(actions@[n]) == step);
            assert(actions@[n] == LbAction::Release(c.channel));
        }
    }
}

/// The balancer stays with the topology, whatever is discovered and whatever connections complete: an
/// endpoint that the last result about it inserts is connecting or ready, one that it removes is
/// neither, and one that no result is about is what it was.
pub proof fn a_poll_follows_the_topology<P, E>(
    polled: Vec<Result<EndpointUpdate<EndpointAddress, ()>, E>>,
    completed: Vec<Connected>,
    actions: Vec<LbAction>,
    key: KeyView,
    i: int,
)
    requires
        -1 <= i < polled@.len(),
        i >= 0 ==> match polled@[i] {
            Ok(EndpointUpdate::Insert(address, _)) => address.spec_key() == key,
            Ok(EndpointUpdate::Remove(address)) => address.spec_key() == key,
            Err(_) => false,
        },
        forall|j: int|
            i < j < polled@.len() ==> match #[trigger] polled@[j] {
                Ok(EndpointUpdate::Insert(address, _)) => address.spec_key() != key,
                Ok(EndpointUpdate::Remove(address)) => address.spec_key() != key,
                Err(_) => true,
            },
    ensures
        forall|lb: &mut LoadBalancer<P>|
            (*lb).state().well_formed() && #[trigger] call_ensures(
                LoadBalancer::<P>::poll_ready::<E>,
                (lb, polled, completed),
                actions,
            ) ==> {
                let (s, t) = ((*lb).state(), (*final(lb)).state());
                &&& t.well_formed()
                &&& (entry_value(t.connecting, key) is Some || entry_value(t.ready, key) is Some)
                    == (if i >= 0 {
                    polled@[i]->Ok_0 is Insert
                } else {
                    entry_value(s.connecting, key) is Some || entry_value(s.ready, key) is Some
                })
                &&& !(entry_value(t.connecting, key) is Some && entry_value(t.ready, key) is Some)
            },
{
    let views = polled_views(polled@);
    assert forall|j: int| i < j < views.len() implies ((#[trigger] views[j]) matches Some(u)
        ==> u.spec_key() != key) by {
        assert(views[j] == polled_view(polled@[j]));
    }
    if i >= 0 {
        assert(views[i] == polled_view(polled@[i]));
    }
    lemma_last_update_decides(views, key, i);
    assert forall|lb: &mut LoadBalancer<P>|
        (*lb).state().well_formed() && #[trigger] call_ensures(
            LoadBalancer::<P>::poll_ready::<E>,
            (lb, polled, completed),
            actions,
        ) implies {
        let (s, t) = ((*lb).state(), (*final(lb)).state());
        &&& t.well_formed()
        &&& (entry_value(t.connecting, key) is Some || entry_value(t.ready, key) is Some) == (if i
            >= 0 {
            polled@[i]->Ok_0 is Insert
        } else {
            entry_value(s.connecting, key) is Some || entry_value(s.ready, key) is Some
        })
        &&& !(entry_value(t.connecting, key) is Some && entry_value(t.ready, key) is Some)
    } by {
        let s = (*lb).state();
        the_balancer_follows_the_topology(s, views, connected_views(completed@), key);
    }
}

proof fn lemma_last_update_decides(
    polled: Seq<Option<EndpointUpdate<KeyView, ()>>>,
    key: KeyView,
    i: int,
)
    requires
        -1 <= i < polled.len(),
        i >= 0 ==> (polled[i] matches Some(u) && u.spec_key() == key),
        forall|j: int|
            i < j < polled.len() ==> ((#[trigger] polled[j]) matches Some(u) ==> u.spec_key()
                != key),
    ensures
        last_inserts(polled, key) == (if i >= 0 {
            Some(polled[i]->0 is Insert)
        } else {
            None
        }),
    decreases polled.len(),
{
    if polled.len() > 0 && i < polled.len() - 1 {
        let rest = polled.drop_last();
        assert(forall|j: int| 0 <= j < rest.len() ==> #[trigger] rest[j] == polled[j]);
        assert(polled[polled.len() - 1] matches Some(u) ==> u.spec_key() != key);
        lemma_last_update_decides(rest, key, i);
    }
}

/// Discovery comes before completions: an endpoint that was inserted last is ready after the same poll
/// where the connection that this started has completed.
pub proof fn an_endpoint_can_become_ready_in_the_poll_that_inserts_it<P, E>(
    polled: Vec<Result<EndpointUpdate<EndpointAddress, ()>, E>>,
    address: EndpointAddress,
    completed: Vec<Connected>,
    actions: Vec<LbAction>,
)
    requires
        polled@.len() == 1,
        polled@[0] == Ok::<EndpointUpdate<EndpointAddress, ()>, E>(
            EndpointUpdate::Insert(address, ()),
        ),
        completed@.len() == 1,
        completed@[0].address.spec_key() == address.spec_key(),
    ensures
        forall|lb: &mut LoadBalancer<P>|
            (*lb).state().well_formed() && (*lb).state().next_attempt == completed@[0].attempt
                && #[trigger] call_ensures(
                LoadBalancer::<P>::poll_ready::<E>,
                (lb, polled, completed),
                actions,
            ) ==> entry_value((*final(lb)).state().ready, address.spec_key()) == Some(
                completed@[0].channel,
            ),
{
    let key = address.spec_key();
    let views = polled_views(polled@);
    let ends = connected_views(completed@);
    assert forall|lb: &mut LoadBalancer<P>|
        (*lb).state().well_formed() && (*lb).state().next_attempt == completed@[0].attempt
            && #[trigger] call_ensures(
            LoadBalancer::<P>::poll_ready::<E>,
            (lb, polled, completed),
            actions,
        ) implies entry_value((*final(lb)).state().ready, key) == Some(
        completed@[0].channel,
    ) by {
        let s = (*lb).state();
        let update = EndpointUpdate::Insert(key, ());
        assert(views[0] == polled_view(polled@[0]));
        assert(views.last() == Some(update));
        assert(views.drop_last() =~= Seq::empty());
        assert(s.change_all(views.drop_last()).0 == s);
        let m = s.change_all(views).0;
        assert(m == s.change(update).0);
        an_update_touches_its_endpoint_only(s, update);
        assert(ends[0] == (key, completed@[0].attempt, completed@[0].channel));
        the_first_completion_makes_ready(m, ends, 0);
    }
}

/// A balancer starts without endpoints.
pub proof fn a_balancer_starts_without_endpoints<P>(
    picker: P,
    lb: LoadBalancer<P>,
    connecting: usize,
    ready: usize,
)
    requires
        call_ensures(LoadBalancer::<P>::new, (picker,), lb),
        call_ensures(LoadBalancer::<P>::connecting_len, (&lb,), connecting),
        call_ensures(LoadBalancer::<P>::ready_len, (&lb,), ready),
    ensures
        connecting == 0,
        ready == 0,
        lb.state().next_attempt == 0,
        lb.state().well_formed(),
        lb.picker() == picker,
{
}

/// A request goes to a channel that is ready, and to none exactly where none is. Where each channel has
/// a load that every reading gives, it does not go to one whose load is higher than that of every other.
pub proof fn a_request_goes_to_a_ready_channel<Req, F: Fn(u64) -> u64>(
    lb: LoadBalancer<P2cPicker>,
    req: Req,
    load: F,
    loads: spec_fn(u64) -> u64,
    channel: Result<u64, LbError>,
    high: int,
)
    requires
        call_ensures(
            LoadBalancer::<P2cPicker>::call::<u64, Req, F>,
            (&lb, &req, load),
            channel,
        ),
        forall|c: u64, l: u64| #[trigger] call_ensures(load, (c,), l) ==> l == loads(c),
        lb.state().ready.len() <= usize::MAX,
    ensures
        lb.state().ready.len() == 0 ==> channel == Err::<u64, LbError>(LbError::Unavailable),
        lb.state().ready.len() > 0 ==> channel is Ok && exists|i: int|
            0 <= i < lb.state().ready.len() && (#[trigger] lb.state().ready[i]).1 == channel->Ok_0,
        lb.state().ready.len() == 1 ==> channel == Ok::<u64, LbError>(lb.state().ready[0].1),
        lb.state().ready.len() >= 2 && 0 <= high < lb.state().ready.len() && (forall|i: int|
            0 <= i < lb.state().ready.len() && i != high ==> loads(
                (#[trigger] lb.state().ready[i]).1,
            ) < loads(lb.state().ready[high].1)) ==> channel != Ok::<u64, LbError>(
            lb.state().ready[high].1,
        ),
{
    let ready = lb.state().ready;
    let readings = load_readings_of(load);
    match channel {
        Ok(c) => {
            let i = choose|i: usize|
                #[trigger] lb.picker().allows(&req, ready, readings, Some(i)) && i < ready.len()
                    && ready[i as int].1 == c;
            a_ready_channel_is_picked(ready, readings, Some(i));
            if ready.len() >= 2 && 0 <= high < ready.len() && (forall|n: int|
                0 <= n < ready.len() && n != high ==> loads((#[trigger] ready[n]).1) < loads(
                    ready[high].1,
                )) {
                assert forall|n: int, x: u64, y: u64|
                    #![trigger readings(ready[n].1, x), readings(ready[high].1, y)]
                    0 <= n < ready.len() && n != high && readings(ready[n].1, x) && readings(
                        ready[high].1,
                        y,
                    ) implies always_lower(x, y) by {
                    integers_compare_by_value(x, y);
                    integers_compare_by_value(y, x);
                }
                the_most_loaded_channel_is_never_picked(ready, readings, high as usize, Some(i));
            }
        },
        Err(LbError::Unavailable) => {
            a_ready_channel_is_picked(ready, readings, None);
        },
        Err(_) => {
            let i = choose|i: usize|
                #[trigger] lb.picker().allows(&req, ready, readings, Some(i)) && i >= ready.len();
            a_ready_channel_is_picked(ready, readings, Some(i));
        },
    }
}

/// What a call comes to is what the balancer decided or what the channel answered. An error of the
/// balancer comes out of the first poll and a complaint out of the next; an answer of the channel is
/// passed on as it is, and an error of it as one of the channel.
pub proof fn a_call_comes_to_its_answer<T>(
    error: LbError,
    channel: u64,
    started: (LbFuture, Option<u64>),
    inner: Option<Result<T, CallError>>,
    output: Option<Result<T, LbError>>,
)
    ensures
        call_ensures(LbFuture::new, (Ok(channel),), started) ==> started.1 == Some(channel) && (
        forall|future: &mut LbFuture|
            *future == started.0 && #[trigger] call_ensures(
                LbFuture::poll::<T>,
                (future, inner),
                output,
            ) ==> *final(future) == started.0 && match inner {
                None => output is None,
                Some(Ok(response)) => output == Some(Ok::<T, LbError>(response)),
                Some(Err(e)) => output == Some(Err::<T, LbError>(LbError::LbChannelError(e))),
            }),
        call_ensures(LbFuture::new, (Err(error),), started) ==> started.1 is None && (
        forall|future: &mut LbFuture|
            *future == started.0 && #[trigger] call_ensures(
                LbFuture::poll::<T>,
                (future, inner),
                output,
            ) ==> output == Some(Err::<T, LbError>(error)) && *final(future) == (LbFuture::Error {
                error: None,
            })),
{
}

/// A poll takes in what was discovered and then what has completed, one after the other, and says all
/// that is to be done for the first before what is for the second.
pub proof fn a_poll_does_one_after_the_other<P, E>(
    polled: Vec<Result<EndpointUpdate<EndpointAddress, ()>, E>>,
    completed: Vec<Connected>,
    first: Vec<LbAction>,
    second: Vec<LbAction>,
    actions: Vec<LbAction>,
)
    ensures
        forall|
            lb: &mut LoadBalancer<P>,
            discover: &mut LoadBalancer<P>,
            connect: &mut LoadBalancer<P>,
        |
            #![trigger call_ensures(
                LoadBalancer::<P>::poll_ready::<E>,
                (lb, polled, completed),
                actions,
            ), call_ensures(
                LoadBalancer::<P>::poll_discover::<E>,
                (discover, polled),
                first,
            ), call_ensures(LoadBalancer::<P>::poll_connecting, (connect, completed), second)]
            {
                &&& call_ensures(
                    LoadBalancer::<P>::poll_ready::<E>,
                    (lb, polled, completed),
                    actions,
                )
                &&& call_ensures(
                    LoadBalancer::<P>::poll_discover::<E>,
                    (discover, polled),
                    first,
                )
                &&& call_ensures(
                    LoadBalancer::<P>::poll_connecting,
                    (connect, completed),
                    second,
                )
                &&& *discover == *lb
                &&& *connect == *final(discover)
            } ==> {
                &&& (*final(lb)).state() == (*final(connect)).state()
                &&& (*final(lb)).picker() == (*lb).picker()
                &&& steps_of(actions@) == steps_of(first@) + steps_of(second@)
            },
{
}

/// The balancer counts the endpoints that are ready and those that are connecting.
pub proof fn endpoints_are_counted_by_what_they_are<P>(
    lb: LoadBalancer<P>,
    connecting: usize,
    ready: usize,
)
    requires
        call_ensures(LoadBalancer::<P>::connecting_len, (&lb,), connecting),
        call_ensures(LoadBalancer::<P>::ready_len, (&lb,), ready),
    ensures
        connecting == lb.state().connecting.len(),
        ready == lb.state().ready.len(),
{
}

/// Whoever polls again after an error was given out is told so.
pub proof fn a_call_is_not_answered_twice<T>(
    inner: Option<Result<T, CallError>>,
    output: Option<Result<T, LbError>>,
)
    ensures
        forall|future: &mut LbFuture|
            *future == (LbFuture::Error { error: None }) && #[trigger] call_ensures(
                LbFuture::poll::<T>,
                (future, inner),
                output,
            ) ==> {
                &&& output matches Some(Err(LbError::Precondition(message)))
                &&& message@ == "LbFuture::Error polled twice"@
            },
{
}

}
