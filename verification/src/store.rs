//! The durable ordered store: a named region that maps byte-string keys to
//! byte-string values and keeps them in lexicographic key order.
//!
//! Everything here is believed, not proved: the contracts restate what the
//! storage engine does. They describe a region that is reached through one
//! handle only; a region shared between handles is outside this model.

use crate::keys::lex_le;
use crate::keys::lex_lt;
use vstd::prelude::*;

verus! {

/// The storage engine's handle to one named region, `sled::Tree`.
#[verifier::external_type_specification]
#[verifier::external_body]
pub struct ExTree(sled::Tree);

/// The storage engine's handle to an opened database, `sled::Db`.
#[verifier::external_type_specification]
#[verifier::external_body]
pub struct ExDb(sled::Db);

/// The storage engine's error, `sled::Error`.
#[verifier::external_type_specification]
#[verifier::external_body]
pub struct ExStoreError(sled::Error);

/// The entries that a region holds: its keys, each with the value stored
/// under it.
pub uninterp spec fn region_entries(region: sled::Tree) -> Map<Seq<u8>, Seq<u8>>;

/// `key` is present in `entries` and no key present comes before it.
pub open spec fn is_first_key(entries: Map<Seq<u8>, Seq<u8>>, key: Seq<u8>) -> bool {
    &&& entries.contains_key(key)
    &&& forall|other: Seq<u8>| #[trigger] entries.contains_key(other) ==> lex_le(key, other)
}

/// `key` is present in `entries` and no key present comes after it.
pub open spec fn is_last_key(entries: Map<Seq<u8>, Seq<u8>>, key: Seq<u8>) -> bool {
    &&& entries.contains_key(key)
    &&& forall|other: Seq<u8>| #[trigger] entries.contains_key(other) ==> lex_le(other, key)
}

/// `listing` holds exactly the entries of `entries`, in increasing key order.
pub open spec fn lists(listing: Seq<(Vec<u8>, Vec<u8>)>, entries: Map<Seq<u8>, Seq<u8>>) -> bool {
    &&& forall|i: int|
        0 <= i < listing.len() ==> entries.contains_pair(
            (#[trigger] listing[i]).0@,
            listing[i].1@,
        )
    &&& forall|i: int, j: int|
        0 <= i < j < listing.len() ==> lex_lt((#[trigger] listing[i]).0@, (#[trigger] listing[j]).0@)
    &&& forall|key: Seq<u8>| #[trigger]
        entries.contains_key(key) ==> exists|i: int|
            0 <= i < listing.len() && (#[trigger] listing[i]).0@ == key
}

/// Calls `sled::open`, which opens the database at `path` or creates it.
/// Nothing is claimed of the outcome: it depends on what is on disk.
#[verifier::external_body]
pub(crate) fn open_store<P: AsRef<std::path::Path>>(path: P) -> (db: Result<sled::Db, sled::Error>) {
    sled::open(path)
}

/// Calls `sled::Db::open_tree`, which opens the region called `name` or
/// creates it. Nothing is claimed of the outcome.
#[verifier::external_body]
pub(crate) fn open_region<V: AsRef<[u8]>>(db: &sled::Db, name: V) -> (region: Result<
    sled::Tree,
    sled::Error,
>) {
    db.open_tree(name)
}

/// Calls `sled::Tree::iter` and collects what it yields. A successful scan
/// lists every entry of the region once, in increasing key order.
#[verifier::external_body]
pub(crate) fn scan_region(region: &sled::Tree) -> (listing: Result<
    Vec<(Vec<u8>, Vec<u8>)>,
    sled::Error,
>)
    ensures
        match listing {
            Ok(found) => lists(found@, region_entries(*region)),
            Err(_) => true,
        },
{
    region.iter().map(|entry| entry.map(|(key, value)| (key.to_vec(), value.to_vec()))).collect()
}

/// Calls `sled::Tree::first`. A successful call returns the entry with the
/// least key, or nothing exactly when the region is empty.
#[verifier::external_body]
pub(crate) fn first_entry(region: &sled::Tree) -> (found: Result<
    Option<(Vec<u8>, Vec<u8>)>,
    sled::Error,
>)
    ensures
        match found {
            Ok(Some(entry)) => is_first_key(region_entries(*region), entry.0@) && region_entries(
                *region,
            )[entry.0@] == entry.1@,
            Ok(None) => region_entries(*region) == Map::<Seq<u8>, Seq<u8>>::empty(),
            Err(_) => true,
        },
{
    region.first().map(|found| found.map(|(key, value)| (key.to_vec(), value.to_vec())))
}

/// Calls `sled::Tree::last`. A successful call returns the entry with the
/// greatest key, or nothing exactly when the region is empty.
#[verifier::external_body]
pub(crate) fn last_entry(region: &sled::Tree) -> (found: Result<
    Option<(Vec<u8>, Vec<u8>)>,
    sled::Error,
>)
    ensures
        match found {
            Ok(Some(entry)) => is_last_key(region_entries(*region), entry.0@) && region_entries(
                *region,
            )[entry.0@] == entry.1@,
            Ok(None) => region_entries(*region) == Map::<Seq<u8>, Seq<u8>>::empty(),
            Err(_) => true,
        },
{
    region.last().map(|found| found.map(|(key, value)| (key.to_vec(), value.to_vec())))
}

/// Calls `sled::Tree::pop_min`. A successful call removes the entry with the
/// least key and returns it, or returns nothing and changes nothing exactly
/// when the region is empty. Nothing is claimed of the region after a failed
/// call.
#[verifier::external_body]
pub(crate) fn take_first_entry(region: &mut sled::Tree) -> (taken: Result<
    Option<(Vec<u8>, Vec<u8>)>,
    sled::Error,
>)
    ensures
        match taken {
            Ok(Some(entry)) => {
                &&& is_first_key(region_entries(*old(region)), entry.0@)
                &&& region_entries(*old(region))[entry.0@] == entry.1@
                &&& region_entries(*final(region)) == region_entries(*old(region)).remove(
                    entry.0@,
                )
            },
            Ok(None) => {
                &&& region_entries(*old(region)) == Map::<Seq<u8>, Seq<u8>>::empty()
                &&& region_entries(*final(region)) == region_entries(*old(region))
            },
            Err(_) => true,
        },
{
    region.pop_min().map(|taken| taken.map(|(key, value)| (key.to_vec(), value.to_vec())))
}

/// Calls `sled::Tree::pop_max`. A successful call removes the entry with the
/// greatest key and returns it, or returns nothing and changes nothing
/// exactly when the region is empty. Nothing is claimed of the region after a
/// failed call.
#[verifier::external_body]
pub(crate) fn take_last_entry(region: &mut sled::Tree) -> (taken: Result<
    Option<(Vec<u8>, Vec<u8>)>,
    sled::Error,
>)
    ensures
        match taken {
            Ok(Some(entry)) => {
                &&& is_last_key(region_entries(*old(region)), entry.0@)
                &&& region_entries(*old(region))[entry.0@] == entry.1@
                &&& region_entries(*final(region)) == region_entries(*old(region)).remove(
                    entry.0@,
                )
            },
            Ok(None) => {
                &&& region_entries(*old(region)) == Map::<Seq<u8>, Seq<u8>>::empty()
                &&& region_entries(*final(region)) == region_entries(*old(region))
            },
            Err(_) => true,
        },
{
    region.pop_max().map(|taken| taken.map(|(key, value)| (key.to_vec(), value.to_vec())))
}

/// Calls `sled::Tree::insert`. A successful call stores `value` under `key`,
/// replacing what was there, and returns the value that was there before, if
/// any. Nothing is claimed of the region after a failed call.
#[verifier::external_body]
pub(crate) fn put_entry(region: &mut sled::Tree, key: &[u8], value: Vec<u8>) -> (previous: Result<
    Option<Vec<u8>>,
    sled::Error,
>)
    ensures
        match previous {
            Ok(before) => {
                &&& region_entries(*final(region)) == region_entries(*old(region)).insert(
                    key@,
                    value@,
                )
                &&& match before {
                    Some(bytes) => region_entries(*old(region)).contains_pair(key@, bytes@),
                    None => !region_entries(*old(region)).contains_key(key@),
                }
            },
            Err(_) => true,
        },
{
    region.insert(key, value).map(|before| before.map(|bytes| bytes.to_vec()))
}

/// Calls `sled::Tree::clear`. A successful call leaves the region without
/// entries. Nothing is claimed of the region after a failed call.
#[verifier::external_body]
pub(crate) fn clear_region(region: &mut sled::Tree) -> (cleared: Result<(), sled::Error>)
    ensures
        match cleared {
            Ok(_) => region_entries(*final(region)) == Map::<Seq<u8>, Seq<u8>>::empty(),
            Err(_) => true,
        },
{
    region.clear()
}

/// Calls `sled::Tree::flush`, which forces what was written to the durable
/// medium and reports how many bytes it flushed. The entries of the region
/// are not touched; nothing is claimed of the count.
#[verifier::external_body]
pub(crate) fn flush_region(region: &sled::Tree) -> (flushed: Result<usize, sled::Error>) {
    region.flush()
}

/// Calls the `Display` impl of `sled::Error` through `to_string`: the
/// engine's diagnostic message. Nothing is claimed of the text.
#[verifier::external_body]
pub(crate) fn store_error_text(error: &sled::Error) -> (text: String) {
    error.to_string()
}

} // verus!
