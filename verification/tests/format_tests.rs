use sha2::Digest;

use txmerge::codec::encode_transaction;
use txmerge::hashing::tx_hash;
use txmerge::hexfmt::{to_hex_string, u32_to_dec_string};
use txmerge::Transaction;

#[test]
fn hex_rendering_is_two_lowercase_digits_per_byte() {
    assert_eq!(to_hex_string(&vec![]), "");
    assert_eq!(to_hex_string(&vec![0x00]), "00");
    assert_eq!(to_hex_string(&vec![0x01, 0x02]), "0102");
    assert_eq!(to_hex_string(&vec![0xde, 0xad, 0xbe, 0xef]), "deadbeef");
    assert_eq!(to_hex_string(&vec![0xff]), "ff");
}

#[test]
fn decimal_rendering() {
    assert_eq!(u32_to_dec_string(0), "0");
    assert_eq!(u32_to_dec_string(7), "7");
    assert_eq!(u32_to_dec_string(10), "10");
    assert_eq!(u32_to_dec_string(130), "130");
    assert_eq!(u32_to_dec_string(u32::MAX), "4294967295");
}

#[test]
fn canonical_encoding_of_an_empty_transaction() {
    let t = Transaction { version: 1, lock_time: 2, inputs: vec![], outputs: vec![] };
    let mut expected: Vec<u8> = vec![];
    expected.extend_from_slice(&[1, 0, 0, 0]); // version, little-endian
    expected.extend_from_slice(&[2, 0, 0, 0]); // lock-time
    expected.extend_from_slice(&[0; 8]); // input count
    expected.extend_from_slice(&[0; 8]); // output count
    assert_eq!(encode_transaction(&t), expected);
}

#[test]
fn content_hash_is_the_digest_of_the_encoding() {
    let t = Transaction { version: 1, lock_time: 2, inputs: vec![], outputs: vec![] };
    let h = tx_hash(&t);
    assert_eq!(h.len(), 32);
    let direct: Vec<u8> = sha2::Sha256::digest(encode_transaction(&t)).to_vec();
    assert_eq!(h, direct);
    // A different transaction hashes differently.
    let u = Transaction { version: 3, lock_time: 2, inputs: vec![], outputs: vec![] };
    assert_ne!(tx_hash(&u), h);
}
