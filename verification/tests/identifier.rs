//! Identifier, distance, and hashing behaviour on concrete values.

use quorum_sim::id::{U256, distance, id_le};
use quorum_sim::hash::sha3_256;
use quorum_sim::gen::log2_floor;

fn id_from_bytes(bytes: [u8; 32]) -> U256 {
    U256::from_bytes(bytes.to_vec()).unwrap()
}

fn id_with_last(last: u8) -> U256 {
    let mut bytes = [0u8; 32];
    bytes[31] = last;
    id_from_bytes(bytes)
}

#[test]
fn distance_is_symmetric() {
    let mut a_bytes = [0u8; 32];
    let mut b_bytes = [0u8; 32];
    for i in 0..32 {
        a_bytes[i] = (i as u8).wrapping_mul(7).wrapping_add(3);
        b_bytes[i] = (i as u8).wrapping_mul(31).wrapping_add(11);
    }
    let a = id_from_bytes(a_bytes);
    let b = id_from_bytes(b_bytes);
    let d_ab = distance(&a, &b);
    let d_ba = distance(&b, &a);
    assert!(d_ab.equals(&d_ba));
}

#[test]
fn distance_to_self_is_zero() {
    let mut a_bytes = [0u8; 32];
    for i in 0..32 {
        a_bytes[i] = 255 - i as u8;
    }
    let a = id_from_bytes(a_bytes);
    let d = distance(&a, &a);
    assert!(d.equals(&U256::zero()));
}

#[test]
fn distance_is_bytewise_xor() {
    let mut a_bytes = [0u8; 32];
    let mut b_bytes = [0u8; 32];
    a_bytes[0] = 0b1010_1010;
    b_bytes[0] = 0b0110_0110;
    a_bytes[31] = 0xff;
    b_bytes[31] = 0x0f;
    let d = distance(&id_from_bytes(a_bytes), &id_from_bytes(b_bytes));
    assert_eq!(d.byte(0), 0b1100_1100);
    assert_eq!(d.byte(31), 0xf0);
    for i in 1..31 {
        assert_eq!(d.byte(i), 0);
    }
}

#[test]
fn identifier_order_is_big_endian() {
    let small = id_with_last(9);
    let mut big_bytes = [0u8; 32];
    big_bytes[0] = 1;
    let big = id_from_bytes(big_bytes);
    assert!(id_le(&small, &big));
    assert!(!id_le(&big, &small));
    assert!(id_le(&small, &small));
}

#[test]
fn from_bytes_rejects_wrong_length() {
    assert!(U256::from_bytes(vec![0u8; 31]).is_none());
    assert!(U256::from_bytes(vec![0u8; 33]).is_none());
    assert!(U256::from_bytes(vec![0u8; 32]).is_some());
}

#[test]
fn sha3_matches_known_digests() {
    // SHA3-256 of the empty input.
    let empty_digest = [
        0xa7u8, 0xff, 0xc6, 0xf8, 0xbf, 0x1e, 0xd7, 0x66, 0x51, 0xc1, 0x47, 0x56, 0xa0, 0x61,
        0xd6, 0x62, 0xf5, 0x80, 0xff, 0x4d, 0xe4, 0x3b, 0x49, 0xfa, 0x82, 0xd8, 0x0a, 0x4b, 0x80,
        0xf8, 0x43, 0x4a,
    ];
    let d = sha3_256(&[]);
    assert!(d.equals(&id_from_bytes(empty_digest)));

    // SHA3-256 of "abc".
    let abc_digest = [
        0x3au8, 0x98, 0x5d, 0xa7, 0x4f, 0xe2, 0x25, 0xb2, 0x04, 0x5c, 0x17, 0x2d, 0x6b, 0xd3,
        0x90, 0xbd, 0x85, 0x5f, 0x08, 0x6e, 0x3e, 0x9d, 0x52, 0x5b, 0x46, 0xbf, 0xe2, 0x45, 0x11,
        0x43, 0x15, 0x32,
    ];
    let d = sha3_256(b"abc".as_slice());
    assert!(d.equals(&id_from_bytes(abc_digest)));
}

#[test]
fn log2_floor_exact_values() {
    assert_eq!(log2_floor(0), 0);
    assert_eq!(log2_floor(1), 0);
    assert_eq!(log2_floor(2), 1);
    assert_eq!(log2_floor(3), 1);
    assert_eq!(log2_floor(4), 2);
    assert_eq!(log2_floor(7), 2);
    assert_eq!(log2_floor(8), 3);
    assert_eq!(log2_floor(1023), 9);
    assert_eq!(log2_floor(1024), 10);
    assert_eq!(log2_floor(usize::MAX), usize::BITS as u8 - 1);
}
