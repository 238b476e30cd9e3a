use server_stats::wire::{appended, decode_members, encode_members, has_member};

fn bytes_of(members: &[u128]) -> Vec<u8> {
    let mut bytes = (members.len() as u64).to_le_bytes().to_vec();
    for member in members {
        bytes.extend_from_slice(&member.to_le_bytes());
    }
    bytes
}

#[test]
fn set_is_length_then_keys() {
    assert_eq!(encode_members(&vec![]), vec![0u8; 8]);
    assert_eq!(encode_members(&vec![1, 2]), bytes_of(&[1, 2]));
    let mut expected = vec![1u8, 0, 0, 0, 0, 0, 0, 0];
    expected.extend_from_slice(&[0x10, 0x32, 0x54, 0x76, 0, 0, 0, 0, 0, 0, 0, 0, 0, 0, 0, 0x80]);
    assert_eq!(encode_members(&vec![0x8000_0000_0000_0000_0000_0000_7654_3210]), expected);
}

#[test]
fn decoding_gives_the_keys_back() {
    let members = vec![7u128, u128::MAX, 0];
    assert_eq!(decode_members(&encode_members(&members)), Some(members));
    assert_eq!(decode_members(&bytes_of(&[])), Some(vec![]));
}

#[test]
fn decoding_ignores_what_follows_the_last_key() {
    let mut bytes = bytes_of(&[5]);
    bytes.extend_from_slice(&[1, 2, 3]);
    assert_eq!(decode_members(&bytes), Some(vec![5]));
}

#[test]
fn short_input_is_malformed() {
    assert_eq!(decode_members(&[]), None);
    assert_eq!(decode_members(&[0; 7]), None);
    let mut bytes = bytes_of(&[5, 6]);
    bytes.pop();
    assert_eq!(decode_members(&bytes), None);
    assert_eq!(decode_members(&[0xff; 8]), None);
}

#[test]
fn has_member_finds_keys() {
    assert!(has_member(&vec![1, 2, 3], 3));
    assert!(!has_member(&vec![1, 2, 3], 4));
    assert!(!has_member(&vec![], 0));
}

#[test]
fn appending_adds_a_key_once() {
    assert_eq!(appended(None, 9), bytes_of(&[9]));
    let one = bytes_of(&[9]);
    assert_eq!(appended(Some(&one), 4), bytes_of(&[9, 4]));
    assert_eq!(appended(Some(&one), 9), one);
    let two = appended(Some(&one), 4);
    assert_eq!(appended(Some(&two), 9), two);
}

#[test]
fn appending_leaves_a_malformed_set_alone() {
    assert_eq!(appended(Some(&[1, 2, 3]), 9), vec![1, 2, 3]);
}
