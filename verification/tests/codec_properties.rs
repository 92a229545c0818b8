use byte_io::{read_be, read_le, write_be, write_le};

#[test]
fn round_trip_every_scalar_both_orders() {
    let mut buf = [0u8; 8];
    write_be(&0xA5u8, &mut buf);
    assert_eq!(read_be::<u8>(&buf), 0xA5);
    write_le(&0xA5u8, &mut buf);
    assert_eq!(read_le::<u8>(&buf), 0xA5);
    write_be(&-77i8, &mut buf);
    assert_eq!(read_be::<i8>(&buf), -77);
    write_le(&-77i8, &mut buf);
    assert_eq!(read_le::<i8>(&buf), -77);
    write_be(&0xBEEFu16, &mut buf);
    assert_eq!(read_be::<u16>(&buf), 0xBEEF);
    write_le(&0xBEEFu16, &mut buf);
    assert_eq!(read_le::<u16>(&buf), 0xBEEF);
    write_be(&-12345i16, &mut buf);
    assert_eq!(read_be::<i16>(&buf), -12345);
    write_le(&-12345i16, &mut buf);
    assert_eq!(read_le::<i16>(&buf), -12345);
    write_be(&0xDEADBEEFu32, &mut buf);
    assert_eq!(read_be::<u32>(&buf), 0xDEADBEEF);
    write_le(&0xDEADBEEFu32, &mut buf);
    assert_eq!(read_le::<u32>(&buf), 0xDEADBEEF);
    write_be(&-123456789i32, &mut buf);
    assert_eq!(read_be::<i32>(&buf), -123456789);
    write_le(&-123456789i32, &mut buf);
    assert_eq!(read_le::<i32>(&buf), -123456789);
    write_be(&0x0123456789ABCDEFu64, &mut buf);
    assert_eq!(read_be::<u64>(&buf), 0x0123456789ABCDEF);
    write_le(&0x0123456789ABCDEFu64, &mut buf);
    assert_eq!(read_le::<u64>(&buf), 0x0123456789ABCDEF);
    write_be(&i64::MIN, &mut buf);
    assert_eq!(read_be::<i64>(&buf), i64::MIN);
    write_le(&i64::MIN, &mut buf);
    assert_eq!(read_le::<i64>(&buf), i64::MIN);
    write_be(&true, &mut buf);
    assert_eq!(read_be::<bool>(&buf), true);
    write_le(&false, &mut buf);
    assert_eq!(read_le::<bool>(&buf), false);
}

#[test]
fn width_one_orders_agree() {
    let mut be = [9u8; 1];
    let mut le = [7u8; 1];
    write_be(&0xC3u8, &mut be);
    write_le(&0xC3u8, &mut le);
    assert_eq!(be, le);
    write_be(&-5i8, &mut be);
    write_le(&-5i8, &mut le);
    assert_eq!(be, le);
    write_be(&true, &mut be);
    write_le(&true, &mut le);
    assert_eq!(be, le);
}

#[test]
fn little_endian_is_reversed_big_endian() {
    let mut be = [0u8; 8];
    let mut le = [0u8; 8];
    write_be(&0xDEADBEEFCAFEF00Du64, &mut be);
    write_le(&0xDEADBEEFCAFEF00Du64, &mut le);
    let mut reversed = be;
    reversed.reverse();
    assert_eq!(le, reversed);
    let mut be4 = [0u8; 4];
    let mut le4 = [0u8; 4];
    write_be(&-123456789i32, &mut be4);
    write_le(&-123456789i32, &mut le4);
    let mut reversed4 = be4;
    reversed4.reverse();
    assert_eq!(le4, reversed4);
}

#[test]
fn sequence_round_trip_exact_window() {
    let data = vec![1u32, 0xFFFFFFFF, 42, 0x80000000];
    let mut buf = [0u8; 16];
    write_be(&data, &mut buf);
    assert_eq!(read_be::<Vec<u32>>(&buf), data);
    write_le(&data, &mut buf);
    assert_eq!(read_le::<Vec<u32>>(&buf), data);
    let signed = vec![-1i16, 300, i16::MIN];
    let mut small = [0u8; 6];
    write_be(&signed, &mut small);
    assert_eq!(read_be::<Vec<i16>>(&small), signed);
}

#[test]
fn sequence_decode_truncates_remainder() {
    let bytes = [0x11u8, 0x22, 0x33, 0x44, 0x55, 0x66, 0x77];
    let words = read_be::<Vec<u16>>(&bytes);
    assert_eq!(words, vec![0x1122, 0x3344, 0x5566]);
    let quads = read_le::<Vec<u32>>(&bytes);
    assert_eq!(quads, vec![0x44332211]);
    let empty = read_be::<Vec<u64>>(&bytes);
    assert_eq!(empty.len(), 0);
    let none = read_le::<Vec<u16>>(&bytes[0..0]);
    assert_eq!(none.len(), 0);
}

#[test]
fn scalar_decode_ignores_bytes_past_width() {
    let short = [0x12u8, 0x34];
    let long = [0x12u8, 0x34, 0xFF, 0xEE, 0xDD];
    assert_eq!(read_be::<u16>(&short), read_be::<u16>(&long));
    assert_eq!(read_le::<u16>(&short), read_le::<u16>(&long));
    assert_eq!(read_be::<u16>(&long), 0x1234);
}

#[test]
fn empty_sequence_encodes_nothing() {
    let data: Vec<u32> = vec![];
    let mut buf = [0x5Au8; 4];
    write_be(&data, &mut buf);
    assert_eq!(buf, [0x5A, 0x5A, 0x5A, 0x5A]);
    write_le(&data, &mut buf);
    assert_eq!(buf, [0x5A, 0x5A, 0x5A, 0x5A]);
}

#[test]
fn sequence_encode_leaves_tail_untouched() {
    let data = vec![0x0102u16, 0x0304];
    let mut buf = [0xAAu8; 7];
    write_be(&data, &mut buf);
    assert_eq!(buf, [0x01, 0x02, 0x03, 0x04, 0xAA, 0xAA, 0xAA]);
}
