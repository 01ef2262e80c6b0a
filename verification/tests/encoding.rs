use acpi_tables::checksum::generate_checksum;
use acpi_tables::encoding::{push_le, FixedBytes};

#[test]
fn checksum_of_nothing_is_zero() {
    assert_eq!(generate_checksum(&[]), 0);
}

#[test]
fn checksum_exact_values() {
    assert_eq!(generate_checksum(&[1]), 255);
    assert_eq!(generate_checksum(&[0]), 0);
    assert_eq!(generate_checksum(&[0x80, 0x80]), 0);
    assert_eq!(generate_checksum(&[255, 2]), 255);
    assert_eq!(generate_checksum(&[10, 20, 30]), 196);
    assert_eq!(generate_checksum(&[0xFF; 256]), 0);
    assert_eq!(generate_checksum(&[0xFF; 257]), 1);
}

#[test]
fn checksum_brings_the_sum_to_zero() {
    let data: Vec<u8> = (0..=255u8).chain(0..=200u8).collect();
    let c: u8 = generate_checksum(&data);
    let sum: u8 = data.iter().fold(c, |acc, x| acc.wrapping_add(*x));
    assert_eq!(sum, 0);
}

#[test]
fn push_le_appends_least_significant_byte_first() {
    let mut out: Vec<u8> = vec![0xEE];
    push_le(&mut out, 0x0102_0304, 4);
    assert_eq!(out, vec![0xEE, 4, 3, 2, 1]);
    push_le(&mut out, 0x0A0B, 2);
    assert_eq!(out, vec![0xEE, 4, 3, 2, 1, 0x0B, 0x0A]);
}

#[test]
fn push_le_of_no_bytes_appends_nothing() {
    let mut out: Vec<u8> = vec![1, 2];
    push_le(&mut out, 0xFFFF, 0);
    assert_eq!(out, vec![1, 2]);
}

#[test]
fn push_le_keeps_only_the_low_bytes() {
    let mut out: Vec<u8> = Vec::new();
    push_le(&mut out, 0x1122_3344_5566_7788, 3);
    assert_eq!(out, vec![0x88, 0x77, 0x66]);
}

#[test]
fn push_le_pads_with_zeros() {
    let mut out: Vec<u8> = Vec::new();
    push_le(&mut out, 0x01, 10);
    assert_eq!(out, vec![1, 0, 0, 0, 0, 0, 0, 0, 0, 0]);
}

#[test]
fn integer_sizes() {
    assert_eq!(<u8 as FixedBytes>::size(), 1);
    assert_eq!(<u16 as FixedBytes>::size(), 2);
    assert_eq!(<u32 as FixedBytes>::size(), 4);
    assert_eq!(<u64 as FixedBytes>::size(), 8);
}

#[test]
fn integer_encodings_match_little_endian() {
    assert_eq!(FixedBytes::to_bytes(&0xABu8), vec![0xAB]);
    assert_eq!(FixedBytes::to_bytes(&0x1234u16), vec![0x34, 0x12]);
    assert_eq!(
        FixedBytes::to_bytes(&0x1234_5678u32),
        0x1234_5678u32.to_le_bytes().to_vec()
    );
    assert_eq!(
        FixedBytes::to_bytes(&0x0123_4567_89AB_CDEFu64),
        vec![0xEF, 0xCD, 0xAB, 0x89, 0x67, 0x45, 0x23, 0x01]
    );
    assert_eq!(FixedBytes::to_bytes(&u64::MAX), vec![0xFF; 8]);
    assert_eq!(FixedBytes::to_bytes(&0u32), vec![0; 4]);
}
