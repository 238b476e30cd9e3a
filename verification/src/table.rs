//! Ordered key-value tables on disk.
//!
//! A table is a `sled::Tree`. This module states what the library relies on
//! of its methods; the tables themselves are not verified. The library is
//! the only writer of its tables, and a table changes only through a call
//! that borrows it mutably.

use vstd::prelude::*;
use crate::order::bytes_before;
use crate::wire::{appended, appended_value};

verus! {

/// A table handle.
#[verifier::external_type_specification]
#[verifier::external_body]
pub struct ExTree(sled::Tree);

/// The error of a table operation.
#[verifier::external_type_specification]
#[verifier::external_body]
pub struct ExTableError(sled::Error);

/// The keys of a table and the value stored under each.
pub uninterp spec fn tree_contents(tree: sled::Tree) -> Map<Seq<u8>, Seq<u8>>;

/// One key of a table with its value.
#[derive(Clone, Debug)]
pub struct Entry {
    pub key: Vec<u8>,
    pub value: Vec<u8>,
}

/// The entries are in strictly ascending key order, so no key occurs twice.
pub open spec fn ascending(entries: Seq<Entry>) -> bool {
    forall|i: int, j: int|
        0 <= i < j < entries.len() ==> bytes_before(
            #[trigger] entries[i].key@,
            #[trigger] entries[j].key@,
        )
}

/// The value listed under a key, if the key is listed.
pub open spec fn listed(entries: Seq<Entry>, key: Seq<u8>) -> Option<Seq<u8>> {
    if exists|i: int| 0 <= i < entries.len() && entries[i].key@ == key {
        let i = choose|i: int| 0 <= i < entries.len() && entries[i].key@ == key;
        Some(entries[i].value@)
    } else {
        None
    }
}

/// The entries list a table: each key of it once, with its value, in
/// ascending order.
pub open spec fn lists(entries: Seq<Entry>, contents: Map<Seq<u8>, Seq<u8>>) -> bool {
    &&& ascending(entries)
    &&& forall|key: Seq<u8>| #[trigger] contents.get(key) == listed(entries, key)
}

/// Calls `sled::Tree::get`. When the read succeeds, the result is the value
/// stored under the key, or nothing if the key is absent.
#[verifier::external_body]
pub(crate) fn tree_get(tree: &sled::Tree, key: &Vec<u8>) -> (r: Result<
    Option<Vec<u8>>,
    sled::Error,
>)
    ensures
        match r {
            Ok(Some(value)) => tree_contents(*tree).get(key@) == Some(value@),
            Ok(None) => tree_contents(*tree).get(key@) is None,
            Err(_) => true,
        },
{
    tree.get(key).map(|found| found.map(|value| value.to_vec()))
}

/// Calls `sled::Tree::contains_key`. When the read succeeds, the result
/// says whether the key is present.
#[verifier::external_body]
pub(crate) fn tree_contains_key(tree: &sled::Tree, key: &Vec<u8>) -> (r: Result<bool, sled::Error>)
    ensures
        match r {
            Ok(present) => present == tree_contents(*tree).contains_key(key@),
            Err(_) => true,
        },
{
    tree.contains_key(key)
}

/// Calls `sled::Tree::insert`. When the write succeeds, the key holds the
/// new value, every other key is unchanged, and the result is the value
/// that the key held before.
#[verifier::external_body]
pub(crate) fn tree_insert(tree: &mut sled::Tree, key: &Vec<u8>, value: &[u8]) -> (r: Result<
    Option<Vec<u8>>,
    sled::Error,
>)
    ensures
        match r {
            Ok(previous) => {
                &&& tree_contents(*final(tree)) == tree_contents(*old(tree)).insert(key@, value@)
                &&& match previous {
                    Some(bytes) => tree_contents(*old(tree)).get(key@) == Some(bytes@),
                    None => tree_contents(*old(tree)).get(key@) is None,
                }
            },
            Err(_) => true,
        },
{
    tree.insert(key, value).map(|found| found.map(|bytes| bytes.to_vec()))
}

/// Calls `sled::Tree::update_and_fetch` with the function that appends a
/// key to a stored set. When the update succeeds, the key holds what that
/// function gives for the value it held before, every other key is
/// unchanged, and the result is the new value.
#[verifier::external_body]
pub(crate) fn tree_append(tree: &mut sled::Tree, key: &Vec<u8>, member: u128) -> (r: Result<
    Option<Vec<u8>>,
    sled::Error,
>)
    ensures
        match r {
            Ok(Some(value)) => {
                &&& value@ == appended_value(tree_contents(*old(tree)).get(key@), member)
                &&& tree_contents(*final(tree)) == tree_contents(*old(tree)).insert(key@, value@)
            },
            Ok(None) => false,
            Err(_) => true,
        },
{
    tree.update_and_fetch(key, |existing| Some(appended(existing, member))).map(
        |stored| stored.map(|value| value.to_vec()),
    )
}

/// Calls `sled::Tree::flush`, which writes what is pending to disk and
/// leaves the contents as they are. Nothing is claimed of the result.
#[verifier::external_body]
pub(crate) fn tree_flush(tree: &sled::Tree) -> (r: Result<usize, sled::Error>) {
    tree.flush()
}

/// Walks `sled::Tree::iter` to its end. When every step succeeds, the
/// result lists the table: each key once with its value, in ascending
/// lexicographic key order.
#[verifier::external_body]
pub(crate) fn tree_entries(tree: &sled::Tree) -> (r: Result<Vec<Entry>, sled::Error>)
    ensures
        match r {
            Ok(entries) => lists(entries@, tree_contents(*tree)),
            Err(_) => true,
        },
{
    let mut entries = Vec::new();
    for item in tree.iter() {
        let (key, value) = item?;
        entries.push(Entry { key: key.to_vec(), value: value.to_vec() });
    }
    Ok(entries)
}

} // verus!
