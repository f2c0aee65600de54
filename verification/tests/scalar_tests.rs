use opcua_codec::codec::{decode_message, encode_message, BinaryCodec};
use opcua_codec::errors::EncodingError;
use opcua_codec::limits::DecodingLimits;
use opcua_codec::reader::Reader;

fn limits() -> DecodingLimits {
    DecodingLimits::new(1024, 1024, 65536, 16)
}

#[test]
fn u32_encodes_little_endian() {
    let value: u32 = 0x0403_0201;
    let bytes = encode_message(&value).unwrap();
    assert_eq!(bytes, vec![0x01, 0x02, 0x03, 0x04]);
    assert_eq!(value.byte_len(), 4);
}

#[test]
fn u32_round_trip() {
    let value: u32 = 3_000_000_017;
    let bytes = encode_message(&value).unwrap();
    let back: u32 = decode_message(bytes, &limits()).unwrap();
    assert_eq!(back, value);
}

#[test]
fn u16_round_trip_and_bytes() {
    let value: u16 = 0xBEEF;
    let bytes = encode_message(&value).unwrap();
    assert_eq!(bytes, vec![0xEF, 0xBE]);
    let back: u16 = decode_message(bytes, &limits()).unwrap();
    assert_eq!(back, value);
}

#[test]
fn u64_round_trip_and_bytes() {
    let value: u64 = 0x0807_0605_0403_0201;
    let bytes = encode_message(&value).unwrap();
    assert_eq!(bytes, vec![1, 2, 3, 4, 5, 6, 7, 8]);
    let back: u64 = decode_message(bytes, &limits()).unwrap();
    assert_eq!(back, value);
}

#[test]
fn signed_scalars_round_trip() {
    let a: i8 = -5;
    let b: i16 = -30_000;
    let c: i32 = -2_000_000_000;
    let d: i64 = -9_000_000_000_000_000_000;
    let back_a: i8 = decode_message(encode_message(&a).unwrap(), &limits()).unwrap();
    let back_b: i16 = decode_message(encode_message(&b).unwrap(), &limits()).unwrap();
    let back_c: i32 = decode_message(encode_message(&c).unwrap(), &limits()).unwrap();
    let back_d: i64 = decode_message(encode_message(&d).unwrap(), &limits()).unwrap();
    assert_eq!(back_a, a);
    assert_eq!(back_b, b);
    assert_eq!(back_c, c);
    assert_eq!(back_d, d);
}

#[test]
fn minus_one_i32_is_all_ff() {
    let value: i32 = -1;
    let bytes = encode_message(&value).unwrap();
    assert_eq!(bytes, vec![0xFF, 0xFF, 0xFF, 0xFF]);
}

#[test]
fn bool_encodes_one_byte() {
    assert_eq!(encode_message(&true).unwrap(), vec![1]);
    assert_eq!(encode_message(&false).unwrap(), vec![0]);
    assert_eq!(true.byte_len(), 1);
    let back: bool = decode_message(vec![1], &limits()).unwrap();
    assert!(back);
}

#[test]
fn u8_round_trip() {
    let value: u8 = 0xA5;
    let bytes = encode_message(&value).unwrap();
    assert_eq!(bytes, vec![0xA5]);
    let back: u8 = decode_message(bytes, &limits()).unwrap();
    assert_eq!(back, value);
}

#[test]
fn truncated_u32_fails_without_panicking() {
    let r: Result<u32, EncodingError> = decode_message(vec![1, 2, 3], &limits());
    assert_eq!(r, Err(EncodingError::UnexpectedEndOfStream));
}

#[test]
fn truncated_u64_fails_without_panicking() {
    let r: Result<u64, EncodingError> = decode_message(vec![1, 2, 3, 4, 5], &limits());
    assert_eq!(r, Err(EncodingError::UnexpectedEndOfStream));
}

#[test]
fn decode_leaves_cursor_after_value() {
    let mut sink: Vec<u8> = Vec::new();
    7u32.encode(&mut sink).unwrap();
    9u16.encode(&mut sink).unwrap();
    let mut source = Reader::new(sink);
    let first = u32::decode(&mut source, &limits(), 0).unwrap();
    let second = u16::decode(&mut source, &limits(), 0).unwrap();
    assert_eq!(first, 7);
    assert_eq!(second, 9);
    assert_eq!(source.remaining_len(), 0);
}

#[test]
fn message_size_limit_enforced() {
    let tight = DecodingLimits::new(1024, 1024, 2, 16);
    let r: Result<u32, EncodingError> = decode_message(vec![1, 2, 3, 4], &tight);
    assert_eq!(r, Err(EncodingError::LimitExceeded));
}
