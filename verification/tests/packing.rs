//! Bit-level packing: fee packing and its round trip, bit conversions,
//! and field-element construction.

use naive_threshold_sig::bits::{be_bits_to_u64, count_true_exec, reverse_bits, u64_le_bits};
use naive_threshold_sig::fees::{pack_fees, unpack_fees};
use naive_threshold_sig::field::FieldElement;

#[test]
fn pack_fees_zero() {
    assert_eq!(pack_fees(0, 0), 0u128);
    assert_eq!(unpack_fees(0), (0, 0));
}

#[test]
fn pack_fees_max() {
    let packed = pack_fees(u64::MAX, u64::MAX);
    assert_eq!(packed, u128::MAX);
    assert_eq!(unpack_fees(packed), (u64::MAX, u64::MAX));
}

#[test]
fn pack_fees_halves() {
    assert_eq!(pack_fees(1, 0), 1u128);
    assert_eq!(pack_fees(0, 1), 1u128 << 64);
    assert_eq!(pack_fees(3, 5), 3u128 + (5u128 << 64));
}

#[test]
fn pack_fees_round_trip() {
    let cases: [(u64, u64); 6] = [
        (0, 0),
        (1, 0),
        (0, 1),
        (42, 1_000_000_007),
        (u64::MAX, 0),
        (u64::MAX, u64::MAX),
    ];
    for (btr, ft) in cases {
        assert_eq!(unpack_fees(pack_fees(btr, ft)), (btr, ft));
    }
}

#[test]
fn le_bits_of_six() {
    let bits = u64_le_bits(6, 4);
    assert_eq!(bits, vec![false, true, true, false]);
}

#[test]
fn le_bits_truncates_to_width() {
    let bits = u64_le_bits(0b10110, 3);
    assert_eq!(bits, vec![false, true, true]);
}

#[test]
fn reverse_bits_reverses() {
    let bits = vec![true, true, false];
    assert_eq!(reverse_bits(&bits), vec![false, true, true]);
}

#[test]
fn be_bits_read_back() {
    let bits = vec![true, false, true];
    assert_eq!(be_bits_to_u64(&bits), 5);
    let empty: Vec<bool> = Vec::new();
    assert_eq!(be_bits_to_u64(&empty), 0);
}

#[test]
fn count_true_counts() {
    let v = vec![true, false, true, true, false];
    assert_eq!(count_true_exec(&v), 3);
}

#[test]
fn field_element_from_small_values() {
    let fe = FieldElement::from_u64(7);
    assert_eq!((fe.l0, fe.l1, fe.l2, fe.l3), (7, 0, 0, 0));
    let fe32 = FieldElement::from_u32(9);
    assert_eq!(fe32, FieldElement::from_u64(9));
}

#[test]
fn field_element_from_packed_fees() {
    let fe = FieldElement::from_u128(pack_fees(3, 5));
    assert_eq!((fe.l0, fe.l1, fe.l2, fe.l3), (3, 5, 0, 0));
}

#[test]
fn field_element_byte_round_trip() {
    let fe = FieldElement { l0: 0x0102_0304_0506_0708, l1: 9, l2: 10, l3: u64::MAX };
    let bytes = fe.to_bytes();
    assert_eq!(bytes.len(), 32);
    assert_eq!(bytes[0], 0x08);
    assert_eq!(bytes[7], 0x01);
    assert_eq!(bytes[8], 9);
    assert_eq!(bytes[16], 10);
    assert_eq!(bytes[24], 0xff);
    assert_eq!(bytes[31], 0xff);
    assert_eq!(FieldElement::from_bytes(&bytes), Some(fe));
}

#[test]
fn field_element_rejects_wrong_length() {
    assert_eq!(FieldElement::from_bytes(&vec![0u8; 31]), None);
    assert_eq!(FieldElement::from_bytes(&vec![0u8; 33]), None);
    assert_eq!(FieldElement::from_bytes(&Vec::new()), None);
}

#[test]
fn field_element_low_bits() {
    let fe = FieldElement::from_u64(1);
    assert_eq!(fe.low_bits_be(4), vec![false, false, false, true]);
    let fe6 = FieldElement::from_u64(6);
    assert_eq!(fe6.low_bits_be(3), vec![true, true, false]);
}

#[test]
fn bit_conversions_at_full_width() {
    let bits = u64_le_bits(u64::MAX, 64);
    assert!(bits.iter().all(|b| *b));
    let be = reverse_bits(&bits);
    assert_eq!(be_bits_to_u64(&be), u64::MAX);
    let empty = u64_le_bits(42, 0);
    assert!(empty.is_empty());
}
