use opcua_codec::codec::{decode_message, encode_message, BinaryCodec};
use opcua_codec::errors::EncodingError;
use opcua_codec::extension_object::{ContainerBody, ExtensionObject};
use opcua_codec::headers::{RequestHeader, ResponseHeader};
use opcua_codec::limits::DecodingLimits;
use opcua_codec::reader::Reader;
use opcua_codec::registry::{DecodedRecord, RecordKind, TypeRegistry};
use opcua_codec::service_types::{
    SetPublishingModeRequest, UnregisterNodesResponse, WriteRequest, WriteValue,
    SET_PUBLISHING_MODE_REQUEST_ID, UNREGISTER_NODES_RESPONSE_ID, WRITE_REQUEST_ID,
};
use opcua_codec::status_code::{Severity, StatusCode};
use opcua_codec::strings::ByteString;

fn limits() -> DecodingLimits {
    DecodingLimits::new(1024, 1024, 65536, 16)
}

fn sample_request_header() -> RequestHeader {
    RequestHeader {
        timestamp: 1_600_000_000_000,
        request_handle: 42,
        return_diagnostics: 0,
        audit_entry_id: ByteString::from_bytes(b"audit-1".to_vec()),
        timeout_hint: 5000,
        additional_header: ExtensionObject::empty(),
    }
}

fn sample_response_header() -> ResponseHeader {
    ResponseHeader {
        timestamp: 1_600_000_000_123,
        request_handle: 42,
        service_result: StatusCode::good(),
        string_table: Some(vec![ByteString::from_bytes(b"warning".to_vec())]),
        additional_header: ExtensionObject::empty(),
    }
}

#[test]
fn set_publishing_mode_request_round_trip() {
    let request = SetPublishingModeRequest {
        request_header: sample_request_header(),
        publishing_enabled: true,
        subscription_ids: Some(vec![1, 5, 9]),
    };
    let bytes = encode_message(&request).unwrap();
    assert_eq!(bytes.len(), request.byte_len());
    let back: SetPublishingModeRequest = decode_message(bytes, &limits()).unwrap();
    assert_eq!(back, request);
}

#[test]
fn set_publishing_mode_request_absent_ids_round_trip() {
    let request = SetPublishingModeRequest {
        request_header: sample_request_header(),
        publishing_enabled: false,
        subscription_ids: None,
    };
    let bytes = encode_message(&request).unwrap();
    assert_eq!(bytes.len(), request.byte_len());
    let back: SetPublishingModeRequest = decode_message(bytes, &limits()).unwrap();
    assert_eq!(back, request);
}

#[test]
fn unregister_nodes_response_round_trip() {
    let response = UnregisterNodesResponse { response_header: sample_response_header() };
    let bytes = encode_message(&response).unwrap();
    assert_eq!(bytes.len(), response.byte_len());
    let back: UnregisterNodesResponse = decode_message(bytes, &limits()).unwrap();
    assert_eq!(back, response);
}

#[test]
fn write_request_round_trip() {
    let request = WriteRequest {
        request_header: sample_request_header(),
        nodes_to_write: Some(vec![
            WriteValue {
                node_id: 2253,
                attribute_id: 13,
                index_range: ByteString::absent(),
                value: ExtensionObject::from_binary_body(9, vec![1, 2, 3]),
            },
            WriteValue {
                node_id: 2254,
                attribute_id: 12,
                index_range: ByteString::from_bytes(b"0:2".to_vec()),
                value: ExtensionObject::empty(),
            },
        ]),
    };
    let bytes = encode_message(&request).unwrap();
    assert_eq!(bytes.len(), request.byte_len());
    let back: WriteRequest = decode_message(bytes, &limits()).unwrap();
    assert_eq!(back, request);
}

#[test]
fn object_ids_are_distinct() {
    let request = SetPublishingModeRequest {
        request_header: sample_request_header(),
        publishing_enabled: true,
        subscription_ids: None,
    };
    let response = UnregisterNodesResponse { response_header: sample_response_header() };
    let write = WriteRequest { request_header: sample_request_header(), nodes_to_write: None };
    assert_eq!(request.object_id(), SET_PUBLISHING_MODE_REQUEST_ID);
    assert_eq!(response.object_id(), UNREGISTER_NODES_RESPONSE_ID);
    assert_eq!(write.object_id(), WRITE_REQUEST_ID);
    assert_ne!(request.object_id(), response.object_id());
    assert_ne!(response.object_id(), write.object_id());
}

#[test]
fn nesting_limit_stops_record_decode() {
    let request = WriteRequest { request_header: sample_request_header(), nodes_to_write: None };
    let bytes = encode_message(&request).unwrap();
    let shallow = DecodingLimits::new(1024, 1024, 65536, 1);
    let r: Result<WriteRequest, EncodingError> = decode_message(bytes.clone(), &shallow);
    assert_eq!(r, Err(EncodingError::LimitExceeded));
    let deep = DecodingLimits::new(1024, 1024, 65536, 2);
    let back: WriteRequest = decode_message(bytes, &deep).unwrap();
    assert_eq!(back, request);
}

#[test]
fn nesting_limit_stops_resolution_chain() {
    let request = SetPublishingModeRequest {
        request_header: sample_request_header(),
        publishing_enabled: true,
        subscription_ids: Some(vec![3]),
    };
    let record = DecodedRecord::SetPublishingModeRequest(request);
    let container = opcua_codec::registry::to_extension_object(&record).unwrap();
    let registry = TypeRegistry::with_defaults();
    // Resolving at a depth already at the limit fails fast instead of
    // recursing deeper.
    let r = registry.resolve(&container, &limits(), 16);
    assert_eq!(r, Err(EncodingError::LimitExceeded));
    let ok = registry.resolve(&container, &limits(), 0).unwrap();
    assert_eq!(ok, record);
}

#[test]
fn unknown_identifier_survives_decode_and_fails_only_at_resolution() {
    let container = ExtensionObject::from_binary_body(999_999, vec![0xDE, 0xAD, 0xBE, 0xEF]);
    let bytes = encode_message(&container).unwrap();
    let back: ExtensionObject = decode_message(bytes.clone(), &limits()).unwrap();
    assert_eq!(back, container);
    // The raw body passes through a decode/encode round trip unchanged.
    assert_eq!(encode_message(&back).unwrap(), bytes);
    let registry = TypeRegistry::with_defaults();
    let r = registry.resolve(&back, &limits(), 0);
    assert_eq!(r, Err(EncodingError::UnknownTypeIdentifier));
}

#[test]
fn registry_resolves_registered_record() {
    let response = UnregisterNodesResponse { response_header: sample_response_header() };
    let record = DecodedRecord::UnregisterNodesResponse(response);
    let container = opcua_codec::registry::to_extension_object(&record).unwrap();
    assert_eq!(container.type_id, UNREGISTER_NODES_RESPONSE_ID);
    let registry = TypeRegistry::with_defaults();
    let resolved = registry.resolve(&container, &limits(), 0).unwrap();
    assert_eq!(resolved, record);
}

#[test]
fn registry_rejects_duplicate_identifier() {
    let mut registry = TypeRegistry::new();
    assert!(registry.register(100, RecordKind::WriteRequest));
    assert!(!registry.register(100, RecordKind::UnregisterNodesResponse));
    assert_eq!(registry.lookup(100), Some(RecordKind::WriteRequest));
    assert_eq!(registry.lookup(101), None);
    assert!(registry.knows(100));
    assert!(!registry.knows(101));
}

#[test]
fn resolution_without_binary_body_is_malformed() {
    let registry = TypeRegistry::with_defaults();
    let container = ExtensionObject {
        type_id: WRITE_REQUEST_ID,
        body: ContainerBody::Absent,
    };
    let r = registry.resolve(&container, &limits(), 0);
    assert_eq!(r, Err(EncodingError::MalformedEncoding));
}

#[test]
fn extension_object_round_trips() {
    let empty = ExtensionObject::empty();
    let absent_body = ExtensionObject { type_id: 7, body: ContainerBody::Absent };
    let binary = ExtensionObject::from_binary_body(7, vec![1, 2, 3]);
    let xml = ExtensionObject {
        type_id: 8,
        body: ContainerBody::Xml(ByteString::from_bytes(b"<a/>".to_vec())),
    };
    for value in [empty, absent_body, binary, xml] {
        let bytes = encode_message(&value).unwrap();
        assert_eq!(bytes.len(), value.byte_len());
        let back: ExtensionObject = decode_message(bytes, &limits()).unwrap();
        assert_eq!(back, value);
    }
}

#[test]
fn empty_extension_object_is_four_bytes() {
    let bytes = encode_message(&ExtensionObject::empty()).unwrap();
    assert_eq!(bytes, vec![0, 0, 0, 0]);
}

#[test]
fn unknown_encoding_kind_byte_is_malformed() {
    // Identifier 7, then an encoding-kind byte outside the defined set.
    let bytes: Vec<u8> = vec![7, 0, 0, 0, 9];
    let r: Result<ExtensionObject, EncodingError> = decode_message(bytes, &limits());
    assert_eq!(r, Err(EncodingError::MalformedEncoding));
}

#[test]
fn truncated_header_fails_mid_field() {
    let request = SetPublishingModeRequest {
        request_header: sample_request_header(),
        publishing_enabled: true,
        subscription_ids: Some(vec![1]),
    };
    let mut bytes = encode_message(&request).unwrap();
    bytes.truncate(10);
    let r: Result<SetPublishingModeRequest, EncodingError> = decode_message(bytes, &limits());
    assert_eq!(r, Err(EncodingError::UnexpectedEndOfStream));
}

#[test]
fn status_code_severity_classification() {
    let good = StatusCode::new(0x0000_0000);
    let uncertain = StatusCode::new(0x4060_0000);
    let bad = StatusCode::new(0x8041_0000);
    assert_eq!(good.severity(), Severity::Good);
    assert_eq!(uncertain.severity(), Severity::Uncertain);
    assert_eq!(bad.severity(), Severity::Bad);
    assert!(good.is_good());
    assert!(!good.is_bad());
    assert!(bad.is_bad());
    assert!(uncertain.is_uncertain());
    assert_eq!(bad.sub_code(), 0x041);
}

#[test]
fn status_code_from_parts_and_flags() {
    let code = StatusCode::from_parts(Severity::Bad, 0x00A);
    assert_eq!(code.severity(), Severity::Bad);
    assert_eq!(code.sub_code(), 0x00A);
    let flagged = StatusCode::new(0x0000_8000);
    assert!(flagged.structure_changed());
    assert!(!flagged.semantics_changed());
}

#[test]
fn status_code_wire_form_is_packed_u32() {
    let code = StatusCode::new(0x8041_0000);
    let bytes = encode_message(&code).unwrap();
    assert_eq!(bytes, vec![0x00, 0x00, 0x41, 0x80]);
    let back: StatusCode = decode_message(bytes, &limits()).unwrap();
    assert_eq!(back, code);
}

#[test]
fn decode_stops_at_message_size_limit() {
    let request = WriteRequest { request_header: sample_request_header(), nodes_to_write: None };
    let bytes = encode_message(&request).unwrap();
    let tight = DecodingLimits::new(1024, 1024, 8, 16);
    let r: Result<WriteRequest, EncodingError> = decode_message(bytes, &tight);
    assert_eq!(r, Err(EncodingError::LimitExceeded));
}

#[test]
fn reader_reports_consumption() {
    let request = UnregisterNodesResponse { response_header: sample_response_header() };
    let bytes = encode_message(&request).unwrap();
    let total = bytes.len();
    let mut source = Reader::new(bytes);
    let back = UnregisterNodesResponse::decode(&mut source, &limits(), 0).unwrap();
    assert_eq!(back, request);
    assert_eq!(source.remaining_len(), 0);
    assert_eq!(source.pos, total);
}
