use byte_io::{read_be, read_le, write_be, write_le, Readable};

#[test]
fn read_scalars_from_shared_buffer() {
    let data = [0x00u8, 0x00, 0x01, 0x01, 0xAB, 0xCD, 0xEF, 0x89];
    assert_eq!(read_be::<u32>(&data), 0x0101);
    assert_eq!(read_be::<u16>(&data[4..]), 0xABCD);
    assert_eq!(read_le::<u16>(&data[4..]), 0xCDAB);
    assert_eq!(read_le::<u8>(&data[4..]), 0xAB);
}

#[test]
fn write_at_offsets_leaves_other_bytes() {
    let mut buf = [0u8; 8];
    write_be(&0xABCDEFu32, &mut buf);
    assert_eq!(buf, [0x00, 0xAB, 0xCD, 0xEF, 0x00, 0x00, 0x00, 0x00]);
    write_le(&0xABCDEFu32, &mut buf[4..]);
    assert_eq!(buf, [0x00, 0xAB, 0xCD, 0xEF, 0xEF, 0xCD, 0xAB, 0x00]);
}

#[test]
fn vector_write_and_read_back() {
    let mut buf = [0u8; 8];
    let data = vec![0x1234u16, 0x5678u16];
    write_le(&data, &mut buf);
    assert_eq!(buf, [0x34, 0x12, 0x78, 0x56, 0x00, 0x00, 0x00, 0x00]);
    assert_eq!(data, read_le::<Vec<u16>>(&buf[0..4]));
    let tail = read_be::<Vec<u32>>(&buf[4..]);
    assert_eq!(tail.len(), 1);
    assert_eq!(tail.first(), Some(&0));
}

#[test]
fn signed_reads_at_offset() {
    let data = [0xAB, 0xCD, 0xEF, 0x01, 0x23];
    assert_eq!(read_be::<u32>(&data), 0xABCDEF01);
    assert_eq!(read_be::<i16>(&data[3..]), 0x0123);
    assert_eq!(read_le::<u32>(&data), 0x01EFCDAB);
    assert_eq!(read_le::<i16>(&data[3..]), 0x2301);
}

#[test]
fn u64_writes_to_full_window() {
    let mut buf = [0u8; 8];
    write_be(&1u64, &mut buf);
    assert_eq!(buf, [0, 0, 0, 0, 0, 0, 0, 1]);
    write_le(&1u64, &mut buf);
    assert_eq!(buf, [1, 0, 0, 0, 0, 0, 0, 0]);
}

#[test]
fn capability_methods_match_entry_points() {
    let buf = [0xAA, 0xBB, 0xCC, 0xDD];
    assert_eq!(u32::from_u8_be(&buf), 0xAABBCCDD);
    assert_eq!(u32::from_u8_le(&buf), 0xDDCCBBAA);
    assert_eq!(u32::from_u8_be(&buf), read_be::<u32>(&buf));
}

#[test]
fn u64_read_uses_all_eight_bytes() {
    let data = [0x01u8, 0x23, 0x45, 0x67, 0x89, 0xAB, 0xCD, 0xEF];
    assert_eq!(read_be::<u64>(&data), 0x0123456789ABCDEF);
    assert_eq!(read_le::<u64>(&data), 0xEFCDAB8967452301);
}

#[test]
fn signed_negative_values_decode_two_complement() {
    assert_eq!(read_be::<i8>(&[0x80]), -128);
    assert_eq!(read_be::<i8>(&[0xFF]), -1);
    assert_eq!(read_be::<i16>(&[0xFF, 0xFE]), -2);
    assert_eq!(read_le::<i16>(&[0xFE, 0xFF]), -2);
    assert_eq!(read_be::<i32>(&[0x80, 0x00, 0x00, 0x00]), i32::MIN);
    assert_eq!(read_be::<i64>(&[0xFF; 8]), -1);
    assert_eq!(read_le::<i64>(&[0x80; 8]), i64::from_le_bytes([0x80; 8]));
}

#[test]
fn booleans_decode_any_nonzero_as_true() {
    assert_eq!(read_be::<bool>(&[0x00, 0x05]), false);
    assert_eq!(read_be::<bool>(&[0x01]), true);
    assert_eq!(read_be::<bool>(&[0x7F]), true);
    assert_eq!(read_le::<bool>(&[0xFF]), true);
    let mut buf = [0xEEu8; 2];
    write_be(&true, &mut buf);
    assert_eq!(buf, [0x01, 0xEE]);
    write_le(&false, &mut buf);
    assert_eq!(buf, [0x00, 0xEE]);
}

#[test]
fn float_bit_patterns_travel_through_integer_codecs() {
    let mut buf = [0u8; 4];
    write_be(&1.5f32.to_bits(), &mut buf);
    assert_eq!(buf, [0x3F, 0xC0, 0x00, 0x00]);
    assert_eq!(f32::from_bits(read_be::<u32>(&buf)), 1.5f32);
    let mut wide = [0u8; 8];
    write_le(&(-2.25f64).to_bits(), &mut wide);
    assert_eq!(f64::from_bits(read_le::<u64>(&wide)), -2.25f64);
}
