use opcua_codec::arrays::{byte_len_array, read_array, write_array};
use opcua_codec::codec::{decode_message, encode_message, BinaryCodec};
use opcua_codec::errors::EncodingError;
use opcua_codec::guid::Guid;
use opcua_codec::limits::DecodingLimits;
use opcua_codec::reader::Reader;
use opcua_codec::strings::ByteString;

fn limits() -> DecodingLimits {
    DecodingLimits::new(1024, 1024, 65536, 16)
}

#[test]
fn one_element_array_concrete_bytes() {
    let values: Option<Vec<u32>> = Some(vec![7u32]);
    let mut sink: Vec<u8> = Vec::new();
    let written = write_array(&mut sink, &values).unwrap();
    assert_eq!(sink, vec![0x01, 0x00, 0x00, 0x00, 0x07, 0x00, 0x00, 0x00]);
    assert_eq!(written, 8);
    assert_eq!(byte_len_array(&values), 8);
}

#[test]
fn absent_array_concrete_bytes() {
    let values: Option<Vec<u32>> = None;
    let mut sink: Vec<u8> = Vec::new();
    let written = write_array(&mut sink, &values).unwrap();
    assert_eq!(sink, vec![0xFF, 0xFF, 0xFF, 0xFF]);
    assert_eq!(written, 4);
    assert_eq!(byte_len_array(&values), 4);
}

#[test]
fn absent_and_empty_arrays_differ_and_round_trip() {
    let absent: Option<Vec<u32>> = None;
    let empty: Option<Vec<u32>> = Some(Vec::new());
    let absent_bytes = encode_message(&absent).unwrap();
    let empty_bytes = encode_message(&empty).unwrap();
    assert_ne!(absent_bytes, empty_bytes);
    assert_eq!(absent_bytes, vec![0xFF, 0xFF, 0xFF, 0xFF]);
    assert_eq!(empty_bytes, vec![0x00, 0x00, 0x00, 0x00]);
    let back_absent: Option<Vec<u32>> = decode_message(absent_bytes, &limits()).unwrap();
    let back_empty: Option<Vec<u32>> = decode_message(empty_bytes, &limits()).unwrap();
    assert_eq!(back_absent, None);
    assert_eq!(back_empty, Some(Vec::new()));
}

#[test]
fn array_round_trip() {
    let values: Option<Vec<u32>> = Some(vec![1, 2, 3, 0xFFFF_FFFF, 42]);
    let bytes = encode_message(&values).unwrap();
    assert_eq!(bytes.len(), 4 + 5 * 4);
    let back: Option<Vec<u32>> = decode_message(bytes, &limits()).unwrap();
    assert_eq!(back, values);
}

#[test]
fn oversized_array_length_rejected_before_allocation() {
    // Declares 2^31 - 1 elements; only the 4-byte length field may be
    // consumed.
    let bytes: Vec<u8> = vec![0xFF, 0xFF, 0xFF, 0x7F, 1, 2, 3];
    let mut source = Reader::new(bytes);
    let r: Result<Option<Vec<u32>>, EncodingError> = read_array(&mut source, &limits(), 0);
    assert_eq!(r, Err(EncodingError::LimitExceeded));
    assert_eq!(source.remaining_len(), 3);
}

#[test]
fn negative_array_length_rejected() {
    // -2 as a length is negative but not the absent sentinel.
    let bytes: Vec<u8> = vec![0xFE, 0xFF, 0xFF, 0xFF];
    let r: Result<Option<Vec<u32>>, EncodingError> = decode_message(bytes, &limits());
    assert_eq!(r, Err(EncodingError::InvalidLength));
}

#[test]
fn truncated_array_element_fails() {
    // Declares two elements but supplies six bytes of element data.
    let bytes: Vec<u8> = vec![0x02, 0x00, 0x00, 0x00, 7, 0, 0, 0, 9, 0];
    let r: Result<Option<Vec<u32>>, EncodingError> = decode_message(bytes, &limits());
    assert_eq!(r, Err(EncodingError::UnexpectedEndOfStream));
}

#[test]
fn string_round_trips() {
    let absent = ByteString::absent();
    let empty = ByteString::from_bytes(Vec::new());
    let text = ByteString::from_bytes(b"status text".to_vec());
    for value in [absent, empty, text] {
        let bytes = encode_message(&value).unwrap();
        assert_eq!(bytes.len(), value.byte_len());
        let back: ByteString = decode_message(bytes, &limits()).unwrap();
        assert_eq!(back, value);
    }
}

#[test]
fn absent_and_empty_strings_differ_on_the_wire() {
    let absent_bytes = encode_message(&ByteString::absent()).unwrap();
    let empty_bytes = encode_message(&ByteString::from_bytes(Vec::new())).unwrap();
    assert_eq!(absent_bytes, vec![0xFF, 0xFF, 0xFF, 0xFF]);
    assert_eq!(empty_bytes, vec![0x00, 0x00, 0x00, 0x00]);
    assert_ne!(absent_bytes, empty_bytes);
}

#[test]
fn oversized_string_length_rejected_before_allocation() {
    let tight = DecodingLimits::new(4, 1024, 65536, 16);
    let bytes: Vec<u8> = vec![0x05, 0x00, 0x00, 0x00, b'h', b'e', b'l', b'l', b'o'];
    let mut source = Reader::new(bytes);
    let r = ByteString::decode(&mut source, &tight, 0);
    assert_eq!(r, Err(EncodingError::LimitExceeded));
    assert_eq!(source.remaining_len(), 5);
}

#[test]
fn truncated_string_fails() {
    let bytes: Vec<u8> = vec![0x05, 0x00, 0x00, 0x00, b'h', b'i'];
    let r: Result<ByteString, EncodingError> = decode_message(bytes, &limits());
    assert_eq!(r, Err(EncodingError::UnexpectedEndOfStream));
}

#[test]
fn array_of_strings_round_trip() {
    let values: Option<Vec<ByteString>> = Some(vec![
        ByteString::absent(),
        ByteString::from_bytes(Vec::new()),
        ByteString::from_bytes(b"abc".to_vec()),
    ]);
    let bytes = encode_message(&values).unwrap();
    let back: Option<Vec<ByteString>> = decode_message(bytes, &limits()).unwrap();
    assert_eq!(back, values);
}

#[test]
fn guid_round_trip_and_bytes() {
    let guid = Guid {
        data1: 0x0403_0201,
        data2: 0x0605,
        data3: 0x0807,
        data4: vec![9, 10, 11, 12, 13, 14, 15, 16],
    };
    let bytes = encode_message(&guid).unwrap();
    assert_eq!(
        bytes,
        vec![1, 2, 3, 4, 5, 6, 7, 8, 9, 10, 11, 12, 13, 14, 15, 16]
    );
    assert_eq!(guid.byte_len(), 16);
    let back: Guid = decode_message(bytes, &limits()).unwrap();
    assert_eq!(back, guid);
}

#[test]
fn truncated_guid_fails() {
    let r: Result<Guid, EncodingError> =
        decode_message(vec![1, 2, 3, 4, 5, 6, 7, 8, 9], &limits());
    assert_eq!(r, Err(EncodingError::UnexpectedEndOfStream));
}
