//! The queue itself: a region of the durable store that holds the items in
//! insertion order, and an in-memory set that mirrors which items are present.

use crate::codec::decode;
use crate::codec::encode;
use crate::errors::HashQueueError;
use crate::keys::key_seq;
use crate::keys::next_after;
use crate::keys::position_key;
use crate::order::appended;
use crate::order::last_key;
use crate::order::lemma_first_key_unique;
use crate::order::lemma_last_key_unique;
use crate::order::lemma_next_key_is_greatest;
use crate::order::next_key;
use crate::order::took_first;
use crate::order::took_last;
use crate::store::clear_region;
use crate::store::first_entry;
use crate::store::flush_region;
use crate::store::is_last_key;
use crate::store::last_entry;
use crate::store::lists;
use crate::store::open_region;
use crate::store::open_store;
use crate::store::put_entry;
use crate::store::region_entries;
use crate::store::scan_region;
use crate::store::take_first_entry;
use crate::store::take_last_entry;
use std::collections::HashSet;
use vstd::prelude::*;
use vstd::std_specs::hash::obeys_key_model;

verus! {

broadcast use vstd::std_specs::hash::group_hash_axioms;

/// A persistent queue of unique items.
pub struct HashQueue<T> {
    tree: sled::Tree,
    set: HashSet<T>,
}

/// What a peek returns once the end's entry has been decoded: the item, or
/// the codec's error.
pub fn peeked<T>(decoded: Result<T, Box<bincode::ErrorKind>>) -> (result: Result<
    Option<T>,
    HashQueueError,
>)
    ensures
        match decoded {
            Ok(item) => result == Ok::<Option<T>, HashQueueError>(Some(item)),
            Err(error) => result == Err::<Option<T>, HashQueueError>(
                HashQueueError::BinCodeError { error: *error },
            ),
        },
{
    match decoded {
        Ok(item) => Ok(Some(item)),
        Err(error) => Err(HashQueueError::from_codec(error)),
    }
}

/// What a pop returns once the removed entry has been decoded to `item`:
/// the item where the in-memory set held it, and otherwise a report that set
/// and region have fallen out of step, naming `operation`.
pub fn popped<T>(item: T, was_member: bool, operation: &str) -> (result: Result<
    Option<T>,
    HashQueueError,
>)
    ensures
        was_member ==> result == Ok::<Option<T>, HashQueueError>(Some(item)),
        !was_member ==> (result matches Err(HashQueueError::SyncError { message }) && message@
            == operation@),
{
    if was_member {
        Ok(Some(item))
    } else {
        Err(HashQueueError::out_of_sync(operation))
    }
}

/// `members` holds the items of `items`, which has one item for each entry
/// of `listing`, and `listing` holds the entries of `entries` in key order.
pub open spec fn gathered<T>(
    entries: Map<Seq<u8>, Seq<u8>>,
    members: Set<T>,
    listing: Seq<(Vec<u8>, Vec<u8>)>,
    items: Seq<T>,
) -> bool {
    &&& lists(listing, entries)
    &&& items.len() == listing.len()
    &&& members == items.to_set()
}

/// `members` was gathered from one item for each entry of `entries`: it is
/// finite and has no more members than the region has entries.
pub open spec fn rebuilt<T>(entries: Map<Seq<u8>, Seq<u8>>, members: Set<T>) -> bool {
    exists|listing: Seq<(Vec<u8>, Vec<u8>)>, items: Seq<T>| #[trigger]
        gathered(entries, members, listing, items)
}

/// Gathers items into a set: the set holds exactly the items listed.
pub fn members_of<T: std::hash::Hash + Eq>(items: Vec<T>) -> (set: HashSet<T>)
    requires
        obeys_key_model::<T>(),
    ensures
        set@ == items@.to_set(),
{
    let ghost listed = items@;
    let mut rest = items;
    let mut set: HashSet<T> = HashSet::new();
    while rest.len() > 0
        invariant
            obeys_key_model::<T>(),
            forall|item: T| #[trigger]
                listed.contains(item) <==> set@.contains(item) || rest@.contains(item),
        decreases rest.len(),
    {
        let ghost before = rest@;
        let popped = rest.pop();
        match popped {
            Some(item) => {
                proof {
                    assert(before == rest@.push(item));
                    assert forall|other: T| #[trigger]
                        before.contains(other) <==> rest@.contains(other) || other == item by {
                        if before.contains(other) {
                            let i = choose|i: int| 0 <= i < before.len() && before[i] == other;
                            if i < rest@.len() {
                                assert(rest@[i] == other);
                            }
                        }
                        if rest@.contains(other) {
                            let i = choose|i: int| 0 <= i < rest@.len() && rest@[i] == other;
                            assert(before[i] == other);
                        }
                        if other == item {
                            assert(before[before.len() - 1] == other);
                        }
                    }
                }
                set.insert(item);
            },
            None => {},
        }
    }
    assert(set@ =~= listed.to_set());
    set
}

/// Decodes the value of every listed entry, in order, and stops at the first
/// that the codec rejects.
fn decode_all<T: serde::de::DeserializeOwned>(listing: &Vec<(Vec<u8>, Vec<u8>)>) -> (result: Result<
    Vec<T>,
    HashQueueError,
>)
    ensures
        match result {
            Ok(items) => items@.len() == listing@.len(),
            Err(error) => listing@.len() > 0 && error is BinCodeError,
        },
{
    let mut items: Vec<T> = Vec::new();
    let mut i: usize = 0;
    while i < listing.len()
        invariant
            i <= listing@.len(),
            items@.len() == i,
        decreases listing@.len() - i,
    {
        match decode::<T>(listing[i].1.as_slice()) {
            Ok(item) => {
                items.push(item);
            },
            Err(error) => {
                return Err(HashQueueError::from_codec(error));
            },
        }
        i = i + 1;
    }
    Ok(items)
}

impl<T> HashQueue<T> where
    T: std::hash::Hash + Eq + Clone + serde::Serialize + std::fmt::Debug + serde::de::DeserializeOwned,
 {
    /// The entries of the durable region: each position key with the bytes
    /// stored under it.
    pub closed spec fn entries(&self) -> Map<Seq<u8>, Seq<u8>> {
        region_entries(self.tree)
    }

    /// The items that the in-memory set holds.
    pub closed spec fn members(&self) -> Set<T> {
        self.set@
    }

    /// Opens the store at `path`, or creates it, attaches to the region
    /// called `name`, and rebuilds the in-memory set from the values stored
    /// there, one item for each entry. A region without entries gives a
    /// queue without members. It fails with a store error where the store
    /// cannot be opened or read and with a codec error where a stored value
    /// does not decode.
    pub fn open<P: AsRef<std::path::Path>, V: AsRef<[u8]>>(path: P, name: V) -> (result: Result<
        Self,
        HashQueueError,
    >)
        requires
            obeys_key_model::<T>(),
        ensures
            match result {
                Ok(queue) => {
                    &&& queue.entries() == Map::<Seq<u8>, Seq<u8>>::empty() ==> queue.members()
                        == Set::<T>::empty()
                    &&& rebuilt(queue.entries(), queue.members())
                },
                Err(HashQueueError::SledError { .. }) => true,
                Err(HashQueueError::BinCodeError { .. }) => true,
                Err(HashQueueError::SyncError { .. }) => false,
            },
    {
        let db = match open_store(path) {
            Ok(db) => db,
            Err(error) => {
                return Err(HashQueueError::from_store(&error));
            },
        };
        let tree = match open_region(&db, name) {
            Ok(tree) => tree,
            Err(error) => {
                return Err(HashQueueError::from_store(&error));
            },
        };
        let listing = match scan_region(&tree) {
            Ok(listing) => listing,
            Err(error) => {
                return Err(HashQueueError::from_store(&error));
            },
        };
        let items = match decode_all::<T>(&listing) {
            Ok(items) => items,
            Err(error) => {
                return Err(error);
            },
        };
        let ghost listed = items@;
        let set = members_of(items);
        proof {
            if region_entries(tree) == Map::<Seq<u8>, Seq<u8>>::empty() {
                if listing@.len() > 0 {
                    assert(region_entries(tree).contains_key(listing@[0].0@));
                }
                assert(listed.to_set() =~= Set::<T>::empty());
            }
            assert(gathered(region_entries(tree), set@, listing@, listed));
        }
        Ok(HashQueue { tree, set })
    }

    /// Whether the in-memory set has no members. The store is not consulted.
    pub fn is_empty(&self) -> (result: bool)
        ensures
            result == (self.members() == Set::<T>::empty()),
    {
        let result = self.set.is_empty();
        assert(self.set@.is_empty() == (self.set@ == Set::<T>::empty()));
        result
    }

    /// The position for the next appended entry, computed from the greatest
    /// key present at the time of the call.
    fn back_index(&self) -> (result: Result<i64, HashQueueError>)
        ensures
            match result {
                Ok(n) => {
                    &&& n >= 0
                    &&& next_key(self.entries()) == Some(key_seq(n as u64))
                    &&& self.entries() == Map::<Seq<u8>, Seq<u8>>::empty() || is_last_key(
                        self.entries(),
                        last_key(self.entries()),
                    )
                },
                Err(error) => error is SledError,
            },
    {
        match last_entry(&self.tree) {
            Err(error) => Err(HashQueueError::from_store(&error)),
            Ok(None) => Ok(0),
            Ok(Some(entry)) => {
                proof {
                    lemma_last_key_unique(self.entries(), entry.0@);
                    assert(self.entries().contains_key(entry.0@));
                    assert(self.entries() != Map::<Seq<u8>, Seq<u8>>::empty());
                }
                match next_after(Some(entry.0.as_slice())) {
                    Some(n) => Ok(n),
                    None => Err(
                        HashQueueError::SledError {
                            message: "the greatest position key cannot be advanced".to_owned(),
                        },
                    ),
                }
            },
        }
    }

    /// Returns the item at the front, the one stored under the least key,
    /// and changes nothing. An empty region gives `None`.
    pub fn front(&self) -> (result: Result<Option<T>, HashQueueError>)
        ensures
            match result {
                Ok(None) => self.entries() == Map::<Seq<u8>, Seq<u8>>::empty(),
                Ok(Some(_)) => self.entries() != Map::<Seq<u8>, Seq<u8>>::empty(),
                Err(HashQueueError::BinCodeError { .. }) => self.entries() != Map::<
                    Seq<u8>,
                    Seq<u8>,
                >::empty(),
                Err(HashQueueError::SledError { .. }) => true,
                Err(HashQueueError::SyncError { .. }) => false,
            },
    {
        match first_entry(&self.tree) {
            Err(error) => Err(HashQueueError::from_store(&error)),
            Ok(None) => Ok(None),
            Ok(Some(entry)) => {
                assert(self.entries().contains_key(entry.0@));
                peeked(decode::<T>(entry.1.as_slice()))
            },
        }
    }

    /// Returns the item at the back, the one stored under the greatest key,
    /// and changes nothing. An empty region gives `None`.
    pub fn back(&self) -> (result: Result<Option<T>, HashQueueError>)
        ensures
            match result {
                Ok(None) => self.entries() == Map::<Seq<u8>, Seq<u8>>::empty(),
                Ok(Some(_)) => self.entries() != Map::<Seq<u8>, Seq<u8>>::empty(),
                Err(HashQueueError::BinCodeError { .. }) => self.entries() != Map::<
                    Seq<u8>,
                    Seq<u8>,
                >::empty(),
                Err(HashQueueError::SledError { .. }) => true,
                Err(HashQueueError::SyncError { .. }) => false,
            },
    {
        match last_entry(&self.tree) {
            Err(error) => Err(HashQueueError::from_store(&error)),
            Ok(None) => Ok(None),
            Ok(Some(entry)) => {
                assert(self.entries().contains_key(entry.0@));
                peeked(decode::<T>(entry.1.as_slice()))
            },
        }
    }

    /// Finishes a pop whose entry has left the region and decoded to `item`:
    /// removes the item from the set, reports a desynchronisation where the
    /// set did not hold it, and flushes otherwise.
    fn settle(&mut self, item: T, operation: &str) -> (result: Result<Option<T>, HashQueueError>)
        requires
            obeys_key_model::<T>(),
        ensures
            final(self).entries() == old(self).entries(),
            final(self).members() == old(self).members().remove(item),
            match result {
                Ok(found) => found == Some(item) && old(self).members().contains(item),
                Err(HashQueueError::SyncError { message }) => message@ == operation@ && !old(
                    self,
                ).members().contains(item) && final(self).members() == old(self).members(),
                Err(HashQueueError::SledError { .. }) => old(self).members().contains(item),
                Err(HashQueueError::BinCodeError { .. }) => false,
            },
    {
        let was_member = self.set.remove(&item);
        if was_member {
            match flush_region(&self.tree) {
                Ok(_) => popped(item, true, operation),
                Err(error) => Err(HashQueueError::from_store(&error)),
            }
        } else {
            assert(old(self).members().remove(item) =~= old(self).members());
            popped(item, false, operation)
        }
    }

    /// Removes the entry at the front, the one stored under the least key,
    /// and returns its item. An empty region gives `None` and nothing
    /// changes. Where the set does not hold the removed item, set and region
    /// have fallen out of step: the entry is gone, the set is as it was, and
    /// the error names this operation.
    pub fn pop_front(&mut self) -> (result: Result<Option<T>, HashQueueError>)
        requires
            obeys_key_model::<T>(),
        ensures
            match result {
                Ok(None) => {
                    &&& old(self).entries() == Map::<Seq<u8>, Seq<u8>>::empty()
                    &&& final(self).entries() == old(self).entries()
                    &&& final(self).members() == old(self).members()
                },
                Ok(Some(item)) => {
                    &&& took_first(old(self).entries(), final(self).entries())
                    &&& old(self).members().contains(item)
                    &&& final(self).members() == old(self).members().remove(item)
                },
                Err(HashQueueError::SyncError { message }) => {
                    &&& message@ == "pop_front"@
                    &&& took_first(old(self).entries(), final(self).entries())
                    &&& final(self).members() == old(self).members()
                },
                Err(HashQueueError::BinCodeError { .. }) => {
                    &&& took_first(old(self).entries(), final(self).entries())
                    &&& final(self).members() == old(self).members()
                },
                Err(HashQueueError::SledError { .. }) => final(self).members().subset_of(
                    old(self).members(),
                ),
            },
    {
        match take_first_entry(&mut self.tree) {
            Err(error) => Err(HashQueueError::from_store(&error)),
            Ok(None) => Ok(None),
            Ok(Some(entry)) => {
                proof {
                    lemma_first_key_unique(old(self).entries(), entry.0@);
                }
                match decode::<T>(entry.1.as_slice()) {
                    Err(error) => Err(HashQueueError::from_codec(error)),
                    Ok(item) => self.settle(item, "pop_front"),
                }
            },
        }
    }

    /// Removes the entry at the back, the one stored under the greatest key,
    /// and returns its item. An empty region gives `None` and nothing
    /// changes. Where the set does not hold the removed item, set and region
    /// have fallen out of step: the entry is gone, the set is as it was, and
    /// the error names this operation.
    pub fn pop_back(&mut self) -> (result: Result<Option<T>, HashQueueError>)
        requires
            obeys_key_model::<T>(),
        ensures
            match result {
                Ok(None) => {
                    &&& old(self).entries() == Map::<Seq<u8>, Seq<u8>>::empty()
                    &&& final(self).entries() == old(self).entries()
                    &&& final(self).members() == old(self).members()
                },
                Ok(Some(item)) => {
                    &&& took_last(old(self).entries(), final(self).entries())
                    &&& old(self).members().contains(item)
                    &&& final(self).members() == old(self).members().remove(item)
                },
                Err(HashQueueError::SyncError { message }) => {
                    &&& message@ == "pop_back"@
                    &&& took_last(old(self).entries(), final(self).entries())
                    &&& final(self).members() == old(self).members()
                },
                Err(HashQueueError::BinCodeError { .. }) => {
                    &&& took_last(old(self).entries(), final(self).entries())
                    &&& final(self).members() == old(self).members()
                },
                Err(HashQueueError::SledError { .. }) => final(self).members().subset_of(
                    old(self).members(),
                ),
            },
    {
        match take_last_entry(&mut self.tree) {
            Err(error) => Err(HashQueueError::from_store(&error)),
            Ok(None) => Ok(None),
            Ok(Some(entry)) => {
                proof {
                    lemma_last_key_unique(old(self).entries(), entry.0@);
                }
                match decode::<T>(entry.1.as_slice()) {
                    Err(error) => Err(HashQueueError::from_codec(error)),
                    Ok(item) => self.settle(item, "pop_back"),
                }
            },
        }
    }

    /// Stores `value` under the key of position `n` and adds it to the set.
    /// Nothing is written where the codec rejects the value, and the set is
    /// touched only after the store has taken the entry.
    fn insert_at(&mut self, value: T, n: i64) -> (result: Result<bool, HashQueueError>)
        requires
            obeys_key_model::<T>(),
            n >= 0,
            !old(self).members().contains(value),
        ensures
            match result {
                Ok(inserted) => {
                    &&& inserted
                    &&& final(self).entries().contains_key(key_seq(n as u64))
                    &&& final(self).entries() == old(self).entries().insert(
                        key_seq(n as u64),
                        final(self).entries()[key_seq(n as u64)],
                    )
                    &&& final(self).members() == old(self).members().insert(value)
                },
                Err(HashQueueError::BinCodeError { .. }) => {
                    &&& final(self).entries() == old(self).entries()
                    &&& final(self).members() == old(self).members()
                },
                Err(HashQueueError::SledError { .. }) => final(self).members() == old(
                    self,
                ).members(),
                Err(HashQueueError::SyncError { .. }) => false,
            },
    {
        let bytes = match encode::<T>(&value) {
            Ok(bytes) => bytes,
            Err(error) => {
                return Err(HashQueueError::from_codec(error));
            },
        };
        let key = position_key(n);
        match put_entry(&mut self.tree, key.as_slice(), bytes) {
            Err(error) => Err(HashQueueError::from_store(&error)),
            Ok(_) => {
                let inserted = self.set.insert(value);
                Ok(inserted)
            },
        }
    }

    /// Appends `value` unless the queue already holds it. A value that is
    /// present is left where it is: the call returns `false` and touches
    /// neither the region nor the set. A new value is stored under the next
    /// key, which comes after every key present, joins the set, and the
    /// region is flushed; the call returns `true`. Where no next key exists,
    /// because the greatest key present is no position key or encodes the
    /// largest position, the call fails with a store error and changes
    /// nothing.
    pub fn push_back(&mut self, value: T) -> (result: Result<bool, HashQueueError>)
        requires
            obeys_key_model::<T>(),
        ensures
            old(self).members().contains(value) ==> {
                &&& result == Ok::<bool, HashQueueError>(false)
                &&& final(self).entries() == old(self).entries()
                &&& final(self).members() == old(self).members()
            },
            !old(self).members().contains(value) ==> match result {
                Ok(inserted) => {
                    &&& inserted
                    &&& appended(old(self).entries(), final(self).entries())
                    &&& final(self).members() == old(self).members().insert(value)
                },
                Err(HashQueueError::BinCodeError { .. }) => {
                    &&& final(self).entries() == old(self).entries()
                    &&& final(self).members() == old(self).members()
                },
                Err(HashQueueError::SledError { .. }) => {
                    ||| final(self).members() == old(self).members()
                    ||| {
                        &&& appended(old(self).entries(), final(self).entries())
                        &&& final(self).members() == old(self).members().insert(value)
                    }
                },
                Err(HashQueueError::SyncError { .. }) => false,
            },
            !old(self).members().contains(value) && next_key(old(self).entries()) is None ==> {
                &&& result matches Err(HashQueueError::SledError { .. })
                &&& final(self).entries() == old(self).entries()
                &&& final(self).members() == old(self).members()
            },
    {
        if self.set.contains(&value) {
            return Ok(false);
        }
        let last = match self.back_index() {
            Ok(last) => last,
            Err(error) => {
                return Err(error);
            },
        };
        let inserted = match self.insert_at(value, last) {
            Ok(inserted) => inserted,
            Err(error) => {
                return Err(error);
            },
        };
        proof {
            let key = key_seq(last as u64);
            lemma_next_key_is_greatest(old(self).entries(), key, self.entries()[key]);
        }
        match flush_region(&self.tree) {
            Ok(_) => Ok(inserted),
            Err(error) => Err(HashQueueError::from_store(&error)),
        }
    }

    /// Empties the region and then the set. On success both are empty, so
    /// clearing an empty queue changes nothing. Where the store fails the set
    /// is left as it was.
    pub fn clear(&mut self) -> (result: Result<(), HashQueueError>)
        ensures
            match result {
                Ok(_) => {
                    &&& final(self).entries() == Map::<Seq<u8>, Seq<u8>>::empty()
                    &&& final(self).members() == Set::<T>::empty()
                },
                Err(error) => error is SledError && final(self).members() == old(self).members(),
            },
    {
        match clear_region(&mut self.tree) {
            Ok(_) => {
                self.set.clear();
                Ok(())
            },
            Err(error) => Err(HashQueueError::from_store(&error)),
        }
    }
}

} // verus!
