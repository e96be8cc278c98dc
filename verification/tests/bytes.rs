use bootloader::bytes::{
    copy_into, read_be_u16, read_be_u32, read_le_u32, to_be_bytes, to_le_bytes,
};
use bootloader::crc::{table_entry, update, CRC_SEED};

#[test]
fn integers_in_both_orders() {
    for value in [0u32, 1, 0x1234_5678, 0xFFFF_FFFF, 0x8000_0001] {
        assert_eq!(to_be_bytes(value), value.to_be_bytes());
        assert_eq!(to_le_bytes(value), value.to_le_bytes());
        assert_eq!(read_be_u32(&value.to_be_bytes(), 0), value);
        assert_eq!(read_le_u32(&value.to_le_bytes(), 0), value);
    }
    assert_eq!(read_be_u16(&[9, 0xF2, 0xA0], 1), 0xF2A0);
}

#[test]
fn copying_into_the_middle() {
    let mut buffer = vec![0; 5];
    copy_into(&mut buffer, 2, &[7, 8]);
    assert_eq!(buffer, [0, 0, 7, 8, 0]);
}

#[test]
fn crc_of_the_check_string() {
    let data = b"123456789";
    assert_eq!(update(CRC_SEED, data, 0, 9) ^ 0xFFFF_FFFF, 0xCBF4_3926);
}

#[test]
fn crc_in_pieces() {
    let data = b"123456789";
    let head = update(CRC_SEED, data, 0, 4);
    assert_eq!(update(head, data, 4, 9), update(CRC_SEED, data, 0, 9));
}

#[test]
fn crc_table() {
    assert_eq!(table_entry(0), 0);
    assert_eq!(table_entry(1), 0x7707_3096);
    assert_eq!(table_entry(255), 0x2D02_EF8D);
}
