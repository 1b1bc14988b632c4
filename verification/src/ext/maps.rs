//! `dashmap`'s and `indexmap`'s maps, and `arc-swap`'s slot.

use crate::endpoint::AddressKey;
use arc_swap::ArcSwap;
use dashmap::DashMap;
use indexmap::IndexMap;
use std::sync::Arc;
use vstd::prelude::*;

verus! {

/// `dashmap::DashMap`, a sharded hash map; opaque.
#[verifier::external_type_specification]
#[verifier::external_body]
#[verifier::reject_recursive_types(K)]
#[verifier::reject_recursive_types(V)]
#[verifier::reject_recursive_types(S)]
pub struct ExDashMap<K, V, S>(dashmap::DashMap<K, V, S>);

/// What a batch of updates holds: for each endpoint in it a service, or nothing where the endpoint
/// is to be removed.
pub uninterp spec fn batch_updates(batch: DashMap<String, Option<u64>>) -> Map<
    Seq<char>,
    Option<u64>,
>;

/// A batch without updates.
pub open spec fn no_updates() -> Map<Seq<char>, Option<u64>> {
    Map::empty()
}

/// Whether the entries are those of the batch, each once.
pub open spec fn lists_batch(
    entries: Seq<(String, Option<u64>)>,
    batch: Map<Seq<char>, Option<u64>>,
) -> bool {
    &&& forall|i: int, j: int|
        0 <= i < j < entries.len() ==> (#[trigger] entries[i]).0@ != (#[trigger] entries[j]).0@
    &&& forall|i: int|
        0 <= i < entries.len() ==> batch.contains_key((#[trigger] entries[i]).0@)
            && batch[entries[i].0@] == entries[i].1
    &&& forall|k: Seq<char>| #[trigger]
        batch.contains_key(k) ==> exists|i: int|
            0 <= i < entries.len() && (#[trigger] entries[i]).0@ == k
}

/// `DashMap::into_iter`: the entries of the batch, each once, in no particular order.
#[verifier::external_body]
pub(crate) fn into_entries(
    batch: DashMap<String, Option<u64>>,
) -> (entries: Vec<(String, Option<u64>)>)
    ensures
        lists_batch(entries@, batch_updates(batch)),
{
    batch.into_iter().collect()
}

/// `Arc::into_inner`: the batch itself, provided that nobody else holds it; who else does is not
/// known here.
#[verifier::external_body]
pub(crate) fn unshare(batch: Arc<DashMap<String, Option<u64>>>) -> (owned: Option<
    DashMap<String, Option<u64>>,
>)
    ensures
        owned matches Some(b) ==> batch_updates(b) == batch_updates(*batch),
{
    Arc::into_inner(batch)
}

/// `arc_swap::ArcSwap` of a batch of updates: a slot with the batch that is being filled.
#[verifier::external_body]
pub struct UpdateSlot {
    current: ArcSwap<DashMap<String, Option<u64>>>,
}

/// What the batch in the slot holds.
pub uninterp spec fn slot_updates(slot: UpdateSlot) -> Map<Seq<char>, Option<u64>>;

impl UpdateSlot {
    /// `ArcSwap::from_pointee` and `DashMap::new`: a slot with an empty batch.
    #[verifier::external_body]
    pub(crate) fn new() -> (slot: UpdateSlot)
        ensures
            slot_updates(slot) == no_updates(),
    {
        UpdateSlot { current: ArcSwap::from_pointee(DashMap::new()) }
    }

    /// `ArcSwap::load` and `DashMap::insert`: puts the value under the key in the current batch, in
    /// place of what was there.
    #[verifier::external_body]
    pub(crate) fn insert(&mut self, key: String, value: Option<u64>)
        ensures
            slot_updates(*final(self)) == slot_updates(*old(self)).insert(key@, value),
    {
        self.current.load().insert(key, value);
    }

    /// `ArcSwap::swap`: takes the current batch out and leaves an empty one.
    #[verifier::external_body]
    pub(crate) fn take(&mut self) -> (batch: Arc<DashMap<String, Option<u64>>>)
        ensures
            batch_updates(*batch) == slot_updates(*old(self)),
            slot_updates(*final(self)) == no_updates(),
    {
        self.current.swap(Arc::new(DashMap::new()))
    }

    /// `ArcSwap::load` and `DashMap::len`: the number of keys in the current batch.
    #[verifier::external_body]
    pub(crate) fn len(&self) -> (len: usize)
        ensures
            len == slot_updates(*self).dom().len(),
    {
        self.current.load().len()
    }

    /// `ArcSwap::load` and `DashMap::is_empty`: whether the current batch has no key.
    #[verifier::external_body]
    pub(crate) fn is_empty(&self) -> (empty: bool)
        ensures
            empty == (slot_updates(*self) == no_updates()),
    {
        self.current.load().is_empty()
    }
}

/// What a map of cluster clients holds: for each cluster name the handle of its client.
pub uninterp spec fn clients_by_name(clients: DashMap<String, u64>) -> Map<Seq<char>, u64>;

/// No clients.
pub open spec fn no_clients() -> Map<Seq<char>, u64> {
    Map::empty()
}

/// `DashMap::new`: a map without clients.
#[verifier::external_body]
pub(crate) fn new_clients() -> (clients: DashMap<String, u64>)
    ensures
        clients_by_name(clients) == no_clients(),
{
    DashMap::new()
}

/// `DashMap::entry` and `Entry::or_insert_with`: the client under the name where there is one, else
/// what `make` makes, which is then under the name. `make` runs in that case only.
#[verifier::external_body]
pub(crate) fn client_or_insert_with<F: FnOnce() -> u64>(
    clients: &mut DashMap<String, u64>,
    name: String,
    make: F,
) -> (client: u64)
    requires
        !clients_by_name(*old(clients)).contains_key(name@) ==> make.requires(()),
    ensures
        clients_by_name(*old(clients)).contains_key(name@) ==> client == clients_by_name(
            *old(clients),
        )[name@] && clients_by_name(*final(clients)) == clients_by_name(*old(clients)),
        !clients_by_name(*old(clients)).contains_key(name@) ==> make.ensures((), client)
            && clients_by_name(*final(clients)) == clients_by_name(*old(clients)).insert(
            name@,
            client,
        ),
{
    *clients.entry(name).or_insert_with(make)
}

/// `indexmap::IndexMap`, a hash map that numbers its entries; opaque.
#[verifier::external_type_specification]
#[verifier::external_body]
#[verifier::reject_recursive_types(K)]
#[verifier::reject_recursive_types(V)]
#[verifier::reject_recursive_types(S)]
pub struct ExIndexMap<K, V, S>(indexmap::IndexMap<K, V, S>);

/// An endpoint address, as a mathematical value to look up by.
pub type KeyView = (u8, u128, Seq<char>, u16);

/// What an indexed map holds: its entries, by index.
pub uninterp spec fn indexed_entries(map: IndexMap<AddressKey, u64>) -> Seq<(KeyView, u64)>;

/// The index of the first entry under the key, if there is one.
pub open spec fn position_of(entries: Seq<(KeyView, u64)>, key: KeyView) -> Option<int>
    decreases entries.len(),
{
    if entries.len() == 0 {
        None
    } else if entries[0].0 == key {
        Some(0)
    } else {
        match position_of(entries.drop_first(), key) {
            Some(i) => Some(i + 1),
            None => None,
        }
    }
}

/// The entries with the value under the key: in the place of the old one, or last.
pub open spec fn with_entry(entries: Seq<(KeyView, u64)>, key: KeyView, value: u64) -> Seq<
    (KeyView, u64),
> {
    match position_of(entries, key) {
        Some(i) => entries.update(i, (key, value)),
        None => entries.push((key, value)),
    }
}

/// The entries without that under the key; the last one takes its place.
pub open spec fn without_entry(entries: Seq<(KeyView, u64)>, key: KeyView) -> Seq<(KeyView, u64)> {
    match position_of(entries, key) {
        Some(i) => entries.update(i, entries.last()).drop_last(),
        None => entries,
    }
}

/// The value under the key, if there is one.
pub open spec fn entry_value(entries: Seq<(KeyView, u64)>, key: KeyView) -> Option<u64> {
    match position_of(entries, key) {
        Some(i) => Some(entries[i].1),
        None => None,
    }
}

/// No entries.
pub open spec fn no_entries() -> Seq<(KeyView, u64)> {
    Seq::empty()
}

/// `IndexMap::new`: a map without entries.
#[verifier::external_body]
pub(crate) fn new_indexed() -> (map: IndexMap<AddressKey, u64>)
    ensures
        indexed_entries(map) == no_entries(),
{
    IndexMap::new()
}

/// `IndexMap::insert`: puts the value under the key, where the old one was or else last, and returns
/// the old one.
#[verifier::external_body]
pub(crate) fn indexed_insert(
    map: &mut IndexMap<AddressKey, u64>,
    key: AddressKey,
    value: u64,
) -> (replaced: Option<u64>)
    ensures
        replaced == entry_value(indexed_entries(*old(map)), key@),
        indexed_entries(*final(map)) == with_entry(indexed_entries(*old(map)), key@, value),
{
    map.insert(key, value)
}

/// `IndexMap::swap_remove`: takes out the entry under the key, moves the last entry into its place,
/// and returns the value.
#[verifier::external_body]
pub(crate) fn indexed_remove(
    map: &mut IndexMap<AddressKey, u64>,
    key: &AddressKey,
) -> (removed: Option<u64>)
    ensures
        removed == entry_value(indexed_entries(*old(map)), key@),
        indexed_entries(*final(map)) == without_entry(indexed_entries(*old(map)), key@),
{
    map.swap_remove(key)
}

/// `IndexMap::get`: the value under the key, if there is one.
#[verifier::external_body]
pub(crate) fn indexed_get(map: &IndexMap<AddressKey, u64>, key: &AddressKey) -> (value: Option<u64>)
    ensures
        value == entry_value(indexed_entries(*map), key@),
{
    map.get(key).copied()
}

/// `IndexMap::len`: the number of entries.
#[verifier::external_body]
pub(crate) fn indexed_len(map: &IndexMap<AddressKey, u64>) -> (len: usize)
    ensures
        len == indexed_entries(*map).len(),
{
    map.len()
}

/// `IndexMap::get_index`: the value at the index, if there is one.
#[verifier::external_body]
pub(crate) fn indexed_at(map: &IndexMap<AddressKey, u64>, index: usize) -> (value: Option<u64>)
    ensures
        value is Some == (index < indexed_entries(*map).len()),
        value is Some ==> value == Some(indexed_entries(*map)[index as int].1),
{
    map.get_index(index).map(|entry| *entry.1)
}

}
