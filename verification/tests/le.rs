use legacy_tx::le::{
    i32_from_le, push_i32_le, push_u16_le, push_u32_le, push_u64_le, u16_from_le, u32_from_le,
    u64_from_le,
};

#[test]
fn little_endian_decoding_matches_std() {
    assert_eq!(u16_from_le(&[0x34, 0x12]), 0x1234);
    assert_eq!(u16_from_le(&[0xff, 0xff]), u16::MAX);
    assert_eq!(u32_from_le(&[0x78, 0x56, 0x34, 0x12]), 0x1234_5678);
    assert_eq!(u32_from_le(&[0xff; 4]), u32::MAX);
    assert_eq!(u64_from_le(&[1, 2, 3, 4, 5, 6, 7, 8]), u64::from_le_bytes([1, 2, 3, 4, 5, 6, 7, 8]));
    assert_eq!(u64_from_le(&[0xff; 8]), u64::MAX);
    assert_eq!(i32_from_le(&[0xff; 4]), -1);
    assert_eq!(i32_from_le(&[0, 0, 0, 0x80]), i32::MIN);
    assert_eq!(i32_from_le(&[0xff, 0xff, 0xff, 0x7f]), i32::MAX);
    assert_eq!(i32_from_le(&[1, 0, 0, 0]), 1);
}

#[test]
fn little_endian_encoding_matches_std() {
    let u16s = [0u16, 1, 0x1234, u16::MAX];
    for value in u16s {
        let mut buffer = Vec::new();
        push_u16_le(&mut buffer, value);
        assert_eq!(buffer, value.to_le_bytes());
    }
    let u32s = [0u32, 1, 0x1234_5678, 0x8000_0000, u32::MAX];
    for value in u32s {
        let mut buffer = Vec::new();
        push_u32_le(&mut buffer, value);
        assert_eq!(buffer, value.to_le_bytes());
    }
    let u64s = [0u64, 1, 0x0102_0304_0506_0708, 5_000_000_000, 1 << 63, u64::MAX];
    for value in u64s {
        let mut buffer = Vec::new();
        push_u64_le(&mut buffer, value);
        assert_eq!(buffer, value.to_le_bytes());
    }
    let i32s = [0i32, 1, -1, -2, 0x1234_5678, i32::MIN, i32::MAX];
    for value in i32s {
        let mut buffer = Vec::new();
        push_i32_le(&mut buffer, value);
        assert_eq!(buffer, value.to_le_bytes());
        assert_eq!(i32_from_le(&buffer), value);
    }
}

#[test]
fn little_endian_encoding_appends() {
    let mut buffer = vec![9];
    push_u16_le(&mut buffer, 0x0201);
    push_u32_le(&mut buffer, 0x0605_0403);
    assert_eq!(buffer, vec![9, 1, 2, 3, 4, 5, 6]);
}
