//! The stored form of an adjacency set: a length-prefixed list of keys.

use vstd::prelude::*;
use vstd::bytes::*;
use vstd::slice::*;

verus! {

/// The bytes of a key list: its length as eight little-endian bytes, then
/// each key as sixteen little-endian bytes.
pub open spec fn encoded_set(members: Seq<u128>) -> Seq<u8> {
    spec_u64_to_le_bytes(members.len() as u64) + Seq::new(
        16 * members.len(),
        |i: int| spec_u128_to_le_bytes(members[i / 16])[i % 16],
    )
}

/// The key list that stored bytes hold. Bytes after the last key are
/// ignored; a short or missing length, or fewer keys than the length
/// announces, is malformed.
pub open spec fn decoded_set(bytes: Seq<u8>) -> Option<Seq<u128>> {
    if bytes.len() < 8 {
        None
    } else {
        let count = spec_u64_from_le_bytes(bytes.subrange(0, 8)) as nat;
        if bytes.len() < 8 + 16 * count {
            None
        } else {
            Some(
                Seq::new(
                    count,
                    |i: int| spec_u128_from_le_bytes(bytes.subrange(8 + 16 * i, 24 + 16 * i)),
                ),
            )
        }
    }
}

/// The error of `bincode::serialize` and `bincode::deserialize`.
#[verifier::external_type_specification]
#[verifier::external_body]
pub struct ExErrorKind(bincode::ErrorKind);

/// Calls `bincode::serialize` on a list of keys. With the fixed-width
/// little-endian encoding that this function always uses, the bytes are the
/// length as a `u64` and then each key; writing into memory with no size
/// limit does not fail.
#[verifier::external_body]
fn bincode_serialize(members: &Vec<u128>) -> (r: Result<Vec<u8>, Box<bincode::ErrorKind>>)
    ensures
        match r {
            Ok(bytes) => bytes@ == encoded_set(members@),
            Err(_) => false,
        },
{
    bincode::serialize(members)
}

/// Calls `bincode::deserialize` for a list of keys. It reads the length,
/// then that many keys, and allows bytes to follow; it fails exactly when
/// the input ends too early.
#[verifier::external_body]
fn bincode_deserialize(bytes: &[u8]) -> (r: Result<Vec<u128>, Box<bincode::ErrorKind>>)
    ensures
        match r {
            Ok(members) => decoded_set(bytes@) == Some(members@),
            Err(_) => decoded_set(bytes@) is None,
        },
{
    bincode::deserialize(bytes)
}

/// A key list with one key added at the end unless it is already there.
pub open spec fn with_member(members: Seq<u128>, hash: u128) -> Seq<u128> {
    if members.contains(hash) {
        members
    } else {
        members.push(hash)
    }
}

/// The keys that a stored value holds: none where there is no value or the
/// value is malformed.
pub open spec fn stored_members(value: Option<Seq<u8>>) -> Seq<u128> {
    match value {
        Some(bytes) => match decoded_set(bytes) {
            Some(members) => members,
            None => Seq::empty(),
        },
        None => Seq::empty(),
    }
}

/// Whether a stored value can take another key: there is none yet, or it
/// is well formed and holds fewer keys than its 64-bit length can count.
pub open spec fn readable(value: Option<Seq<u8>>) -> bool {
    match value {
        Some(bytes) => match decoded_set(bytes) {
            Some(members) => members.len() < u64::MAX,
            None => false,
        },
        None => true,
    }
}

/// The value that replaces a stored one when a key is appended. A
/// malformed value is left as it is.
pub open spec fn appended_value(existing: Option<Seq<u8>>, hash: u128) -> Seq<u8> {
    match existing {
        Some(bytes) => match decoded_set(bytes) {
            Some(members) => encoded_set(with_member(members, hash)),
            None => bytes,
        },
        None => encoded_set(seq![hash]),
    }
}

/// A key list of `n` keys takes `8 + 16 * n` bytes.
pub proof fn lemma_encoded_len(members: Seq<u128>)
    ensures
        encoded_set(members).len() == 8 + 16 * members.len(),
{
    lemma_auto_spec_u64_to_from_le_bytes();
    assert(spec_u64_to_le_bytes(members.len() as u64).len() == 8);
}

/// Encoding a key list and decoding it again gives the list back.
pub proof fn lemma_decode_encode(members: Seq<u128>)
    requires
        members.len() <= u64::MAX,
    ensures
        decoded_set(encoded_set(members)) == Some(members),
{
    lemma_auto_spec_u64_to_from_le_bytes();
    lemma_auto_spec_u128_to_from_le_bytes();
    let n = members.len();
    let head = spec_u64_to_le_bytes(n as u64);
    let bytes = encoded_set(members);
    assert(head.len() == 8);
    assert(bytes.len() == 8 + 16 * n);
    assert(bytes.subrange(0, 8) =~= head);
    assert(spec_u64_from_le_bytes(head) == n as u64);
    let out = decoded_set(bytes)->0;
    assert(out.len() == n);
    assert forall|i: int| 0 <= i < n implies out[i] == members[i] by {
        let part = bytes.subrange(8 + 16 * i, 24 + 16 * i);
        let key = spec_u128_to_le_bytes(members[i]);
        assert(key.len() == 16);
        assert forall|j: int| 0 <= j < 16 implies part[j] == key[j] by {
            assert((16 * i + j) / 16 == i);
            assert((16 * i + j) % 16 == j);
            assert(bytes[8 + 16 * i + j] == key[j]);
        }
        assert(part =~= key);
    }
    assert(out =~= members);
}

/// A key is in a set after an append if it was there before or is the
/// appended key.
pub proof fn lemma_with_member_contains(members: Seq<u128>, hash: u128, other: u128)
    ensures
        with_member(members, hash).contains(other) <==> members.contains(other) || other == hash,
{
    if !members.contains(hash) {
        let grown = members.push(hash);
        assert(grown[members.len() as int] == hash);
        if members.contains(other) {
            let i = choose|i: int| 0 <= i < members.len() && members[i] == other;
            assert(grown[i] == other);
        }
        if grown.contains(other) {
            let i = choose|i: int| 0 <= i < grown.len() && grown[i] == other;
            if i < members.len() {
                assert(members[i] == other);
            }
        }
    }
}

/// Appending a key to a set that can take it stores the set with that key,
/// and appending it once more changes nothing.
pub proof fn lemma_appended(existing: Option<Seq<u8>>, hash: u128)
    requires
        readable(existing),
    ensures
        decoded_set(appended_value(existing, hash)) == Some(
            with_member(stored_members(existing), hash),
        ),
        stored_members(Some(appended_value(existing, hash))) == with_member(
            stored_members(existing),
            hash,
        ),
        appended_value(Some(appended_value(existing, hash)), hash) == appended_value(
            existing,
            hash,
        ),
{
    let members = with_member(stored_members(existing), hash);
    lemma_decode_encode(members);
    match existing {
        Some(bytes) => {},
        None => {
            assert(seq![hash] =~= Seq::<u128>::empty().push(hash));
        },
    }
    assert(appended_value(existing, hash) == encoded_set(members));
    lemma_with_member_contains(stored_members(existing), hash, hash);
    assert(with_member(members, hash) == members);
}

/// The keys of a stored value.
pub fn decode_members(bytes: &[u8]) -> (r: Option<Vec<u128>>)
    ensures
        match r {
            Some(members) => decoded_set(bytes@) == Some(members@) && 8 + 16 * members@.len()
                <= bytes@.len(),
            None => decoded_set(bytes@) is None,
        },
{
    match bincode_deserialize(bytes) {
        Ok(members) => Some(members),
        Err(_) => None,
    }
}

/// The stored value of a key list.
pub fn encode_members(members: &Vec<u128>) -> (bytes: Vec<u8>)
    ensures
        bytes@ == encoded_set(members@),
        decoded_set(bytes@) == Some(members@),
{
    proof {
        assert(members@.len() == members.len());
        lemma_decode_encode(members@);
    }
    match bincode_serialize(members) {
        Ok(bytes) => bytes,
        Err(_) => Vec::new(),
    }
}

/// Whether a key is in a list.
pub fn has_member(members: &Vec<u128>, hash: u128) -> (found: bool)
    ensures
        found == members@.contains(hash),
{
    let mut i: usize = 0;
    while i < members.len()
        invariant
            i <= members.len(),
            forall|j: int| 0 <= j < i ==> members@[j] != hash,
        decreases members.len() - i,
    {
        if members[i] == hash {
            return true;
        }
        i += 1;
    }
    false
}

/// The value to store in place of `existing` when `hash` joins the set.
pub fn appended(existing: Option<&[u8]>, hash: u128) -> (out: Vec<u8>)
    ensures
        out@ == appended_value(
            match existing {
                Some(bytes) => Some(bytes@),
                None => None,
            },
            hash,
        ),
{
    match existing {
        Some(bytes) => match decode_members(bytes) {
            Some(mut members) => {
                if !has_member(&members, hash) {
                    members.push(hash);
                }
                encode_members(&members)
            },
            None => slice_to_vec(bytes),
        },
        None => {
            let mut members: Vec<u128> = Vec::new();
            members.push(hash);
            assert(members@ =~= seq![hash]);
            encode_members(&members)
        },
    }
}

} // verus!
