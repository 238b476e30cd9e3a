//! Room identifiers and their 128-bit content-addressed keys.

use vstd::prelude::*;
use vstd::bytes::*;
use vstd::utf8::*;
use vstd::string::*;
use vstd::slice::*;

verus! {

/// The XXH3 128-bit digest (seed 0, default secret) of a byte string.
pub uninterp spec fn xxh3_128_digest(input: Seq<u8>) -> u128;

/// The standard-alphabet, padded base64 text of a byte string.
pub uninterp spec fn base64_text(bytes: Seq<u8>) -> Seq<char>;

/// The bytes that a standard-alphabet base64 text decodes to, if it is
/// well formed.
pub uninterp spec fn base64_bytes(text: Seq<char>) -> Option<Seq<u8>>;

/// Calls `xxhash_rust::xxh3::xxh3_128`. The digest depends on the input
/// bytes alone; nothing else is claimed of it.
#[verifier::external_body]
fn xxh3_128(input: &[u8]) -> (digest: u128)
    ensures
        digest == xxh3_128_digest(input@),
{
    xxhash_rust::xxh3::xxh3_128(input)
}

/// Calls `base64::encode` on a 16-byte key, far below the length at which
/// it fails to size its buffer. The text depends on the bytes alone, and
/// decoding it gives the bytes back.
#[verifier::external_body]
fn base64_encode(bytes: &Vec<u8>) -> (text: String)
    requires
        bytes@.len() == 16,
    ensures
        text@ == base64_text(bytes@),
        base64_bytes(text@) == Some(bytes@),
{
    base64::encode(bytes)
}

/// The error of `base64::decode`.
#[verifier::external_type_specification]
#[verifier::external_body]
pub struct ExDecodeError(base64::DecodeError);

/// Calls `base64::decode`. Whether it succeeds, and the bytes it gives,
/// depend on the text alone.
#[verifier::external_body]
fn base64_decode(text: &str) -> (r: Result<Vec<u8>, base64::DecodeError>)
    ensures
        match r {
            Ok(bytes) => base64_bytes(text@) == Some(bytes@),
            Err(_) => base64_bytes(text@) is None,
        },
{
    base64::decode(text)
}

/// Calls `String::from_utf8`, which succeeds exactly on valid UTF-8 and
/// then gives the text that the bytes encode.
#[verifier::external_body]
fn string_from_utf8(bytes: Vec<u8>) -> (r: Option<String>)
    ensures
        match r {
            Some(text) => valid_utf8(bytes@) && text@ == decode_utf8(bytes@),
            None => !valid_utf8(bytes@),
        },
{
    String::from_utf8(bytes).ok()
}

/// The text of stored identifier bytes: the empty text where they are not
/// valid UTF-8.
pub open spec fn identifier_text(bytes: Seq<u8>) -> Seq<char> {
    if valid_utf8(bytes) {
        decode_utf8(bytes)
    } else {
        Seq::empty()
    }
}

/// The texts of those of a list of looked-up identifiers that were found,
/// in their order.
pub open spec fn present_texts(found: Seq<Option<Seq<u8>>>) -> Seq<Seq<char>>
    decreases found.len(),
{
    if found.len() == 0 {
        Seq::empty()
    } else {
        let rest = present_texts(found.drop_last());
        match found.last() {
            Some(bytes) => rest.push(identifier_text(bytes)),
            None => rest,
        }
    }
}

/// Reads stored identifier bytes as text.
pub fn identifier_of(bytes: Vec<u8>) -> (text: String)
    ensures
        text@ == identifier_text(bytes@),
{
    match string_from_utf8(bytes) {
        Some(text) => text,
        None => String::new(),
    }
}

/// The key of a room identifier: the digest of its UTF-8 bytes.
pub open spec fn spec_hash(identifier: Seq<char>) -> u128 {
    xxh3_128_digest(encode_utf8(identifier))
}

/// The 16 little-endian bytes under which a key is stored.
pub open spec fn key_of(hash: u128) -> Seq<u8> {
    spec_u128_to_le_bytes(hash)
}

/// The external identifier of a key: the base64 text of its stored bytes.
pub open spec fn id_text(hash: u128) -> Seq<char> {
    base64_text(key_of(hash))
}

/// The key that stored bytes stand for; only 16-byte strings are keys.
pub open spec fn spec_hash_of_key(key: Seq<u8>) -> Option<u128> {
    if key.len() == 16 {
        Some(spec_u128_from_le_bytes(key))
    } else {
        None
    }
}

/// The key that an external identifier names, if it is the base64 text of
/// 16 bytes.
pub open spec fn spec_decode_id(id: Seq<char>) -> Option<u128> {
    match base64_bytes(id) {
        Some(bytes) => spec_hash_of_key(bytes),
        None => None,
    }
}

/// Maps a room identifier to its 128-bit key. The key is a function of
/// the identifier's text alone: the same identifier has the same key in
/// every call and in every process.
pub fn hash(input: &str) -> (h: u128)
    ensures
        h == spec_hash(input@),
{
    xxh3_128(input.as_bytes())
}

/// The stored form of a key.
pub fn key_bytes(hash: u128) -> (key: Vec<u8>)
    ensures
        key@ == key_of(hash),
        key@.len() == 16,
{
    u128_to_le_bytes(hash)
}

/// Reads a key back from its stored form.
pub fn hash_of_key(key: &Vec<u8>) -> (r: Option<u128>)
    ensures
        r == spec_hash_of_key(key@),
{
    if key.len() == 16 {
        Some(u128_from_le_bytes(key.as_slice()))
    } else {
        None
    }
}

/// The external identifier of a key.
pub fn encode_id(hash: u128) -> (id: String)
    ensures
        id@ == id_text(hash),
        spec_decode_id(id@) == Some(hash),
{
    let key = key_bytes(hash);
    proof {
        lemma_auto_spec_u128_to_from_le_bytes();
        assert(key_of(hash).len() == 16 && spec_u128_from_le_bytes(key_of(hash)) == hash);
    }
    base64_encode(&key)
}

/// The key named by an external identifier.
pub fn decode_id(id: &str) -> (r: Option<u128>)
    ensures
        r == spec_decode_id(id@),
{
    match base64_decode(id) {
        Ok(bytes) => hash_of_key(&bytes),
        Err(_) => None,
    }
}

/// Stored bytes of length 16 are the stored form of exactly one key, and no
/// other bytes are the stored form of any.
pub proof fn lemma_hash_of_key(key: Seq<u8>)
    ensures
        match spec_hash_of_key(key) {
            Some(hash) => key_of(hash) == key && forall|other: u128|
                key_of(other) == key ==> other == hash,
            None => forall|other: u128| key_of(other) != key,
        },
{
    lemma_auto_spec_u128_to_from_le_bytes();
    if key.len() == 16 {
        let hash = spec_u128_from_le_bytes(key);
        assert(spec_u128_to_le_bytes(spec_u128_from_le_bytes(key)) == key);
        assert forall|other: u128| key_of(other) == key implies other == hash by {
            lemma_key_of_injective(other, hash);
        }
    } else {
        assert forall|other: u128| key_of(other) != key by {
            assert(spec_u128_to_le_bytes(other).len() == 16);
        }
    }
}

/// Stored keys are in one-to-one correspondence with 128-bit keys.
pub proof fn lemma_key_of_injective(a: u128, b: u128)
    requires
        key_of(a) == key_of(b),
    ensures
        a == b,
{
    lemma_auto_spec_u128_to_from_le_bytes();
    assert(spec_u128_to_le_bytes(a).len() == 16);
    assert(spec_u128_to_le_bytes(b).len() == 16);
}

} // verus!
