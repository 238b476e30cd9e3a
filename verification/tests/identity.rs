use server_stats::identity::{
    decode_id, encode_id, hash, hash_of_key, identifier_of, key_bytes,
};

#[test]
fn hash_is_deterministic() {
    assert_eq!(hash("#general:example.org"), hash("#general:example.org"));
    assert_ne!(hash("#general:example.org"), hash("!abc123:example.org"));
}

#[test]
fn hash_of_the_empty_identifier() {
    assert_eq!(hash(""), 0x99aa06d3014798d86001c324468d497f_u128);
}

#[test]
fn key_bytes_are_little_endian() {
    let key = key_bytes(0x0102_0304_0506_0708_090a_0b0c_0d0e_0f10);
    assert_eq!(key, vec![16, 15, 14, 13, 12, 11, 10, 9, 8, 7, 6, 5, 4, 3, 2, 1]);
    assert_eq!(hash_of_key(&key), Some(0x0102_0304_0506_0708_090a_0b0c_0d0e_0f10));
}

#[test]
fn only_sixteen_bytes_are_a_key() {
    assert_eq!(hash_of_key(&vec![]), None);
    assert_eq!(hash_of_key(&vec![0; 15]), None);
    assert_eq!(hash_of_key(&vec![0; 17]), None);
    assert_eq!(hash_of_key(&vec![0; 16]), Some(0));
}

#[test]
fn external_identifier_is_base64_of_the_key() {
    let seed = 0xafe3_ea05_f1fb_e8a7_501a_425d_197c_efe2_u128;
    assert_eq!(encode_id(seed), "4u98GV1CGlCn6PvxBerjrw==");
    assert_eq!(encode_id(0), "AAAAAAAAAAAAAAAAAAAAAA==");
    assert_eq!(decode_id("4u98GV1CGlCn6PvxBerjrw=="), Some(seed));
    assert_eq!(decode_id(&encode_id(hash("!a:x"))), Some(hash("!a:x")));
}

#[test]
fn malformed_external_identifiers_name_no_key() {
    assert_eq!(decode_id("not base64!"), None);
    assert_eq!(decode_id(""), None);
    assert_eq!(decode_id("AAAA"), None);
    assert_eq!(decode_id("AAAAAAAAAAAAAAAAAAAAAAAA"), None);
}

#[test]
fn identifier_bytes_are_read_as_utf8() {
    assert_eq!(identifier_of(b"!room:example.org".to_vec()), "!room:example.org");
    assert_eq!(identifier_of("#caf\u{e9}:x".as_bytes().to_vec()), "#caf\u{e9}:x");
    assert_eq!(identifier_of(vec![0xff, 0xfe]), "");
    assert_eq!(identifier_of(vec![]), "");
}
