use vstd::prelude::*;

use crate::codec::{BinaryCodec, DecOutcome};
use crate::errors::EncodingError;
use crate::extension_object::{ExtensionObject, ExtensionObjectView};
use crate::limits::DecodingLimits;
use crate::reader::Reader;
use crate::status_code::StatusCode;
use crate::strings::ByteString;

verus! {

broadcast use vstd::seq_lib::lemma_seq_skip_of_skip;

/// The header every service request starts with.  The session layer
/// owns its meaning; the codec treats it as an ordinary structured
/// record whose fields encode in declared order.
#[derive(Clone, Debug, PartialEq, Eq)]
pub struct RequestHeader {
    pub timestamp: i64,
    pub request_handle: u32,
    pub return_diagnostics: u32,
    pub audit_entry_id: ByteString,
    pub timeout_hint: u32,
    pub additional_header: ExtensionObject,
}

/// The abstraction of a request header.
pub struct RequestHeaderView {
    pub timestamp: i64,
    pub request_handle: u32,
    pub return_diagnostics: u32,
    pub audit_entry_id: Option<Seq<u8>>,
    pub timeout_hint: u32,
    pub additional_header: ExtensionObjectView,
}

impl DeepView for RequestHeader {
    type V = RequestHeaderView;

    open spec fn deep_view(&self) -> RequestHeaderView {
        RequestHeaderView {
            timestamp: self.timestamp,
            request_handle: self.request_handle,
            return_diagnostics: self.return_diagnostics,
            audit_entry_id: self.audit_entry_id.deep_view(),
            timeout_hint: self.timeout_hint,
            additional_header: self.additional_header.deep_view(),
        }
    }
}

impl BinaryCodec for RequestHeader {
    open spec fn wire(m: RequestHeaderView) -> Seq<u8> {
        <i64 as BinaryCodec>::wire(m.timestamp) + (<u32 as BinaryCodec>::wire(m.request_handle) + (
        <u32 as BinaryCodec>::wire(m.return_diagnostics) + (ByteString::wire(m.audit_entry_id) + (<
        u32 as BinaryCodec>::wire(m.timeout_hint) + ExtensionObject::wire(m.additional_header)))))
    }

    open spec fn wf(m: RequestHeaderView, limits: DecodingLimits) -> bool {
        &&& ByteString::wf(m.audit_entry_id, limits)
        &&& ExtensionObject::wf(m.additional_header, limits)
    }

    open spec fn levels() -> int {
        1
    }

    open spec fn dec(s: Seq<u8>, limits: DecodingLimits, depth: int) -> DecOutcome<
        RequestHeaderView,
    > {
        if depth >= limits.max_nesting_level {
            Err((EncodingError::LimitExceeded, 0))
        } else {
            let d = depth + 1;
            match <i64 as BinaryCodec>::dec(s, limits, d) {
                Err((e, n)) => Err((e, n)),
                Ok((timestamp, n1)) => match <u32 as BinaryCodec>::dec(s.skip(n1), limits, d) {
                    Err((e, n)) => Err((e, n1 + n)),
                    Ok((request_handle, n2)) => match <u32 as BinaryCodec>::dec(
                        s.skip(n1 + n2),
                        limits,
                        d,
                    ) {
                        Err((e, n)) => Err((e, n1 + n2 + n)),
                        Ok((return_diagnostics, n3)) => match ByteString::dec(
                            s.skip(n1 + n2 + n3),
                            limits,
                            d,
                        ) {
                            Err((e, n)) => Err((e, n1 + n2 + n3 + n)),
                            Ok((audit_entry_id, n4)) => match <u32 as BinaryCodec>::dec(
                                s.skip(n1 + n2 + n3 + n4),
                                limits,
                                d,
                            ) {
                                Err((e, n)) => Err((e, n1 + n2 + n3 + n4 + n)),
                                Ok((timeout_hint, n5)) => match ExtensionObject::dec(
                                    s.skip(n1 + n2 + n3 + n4 + n5),
                                    limits,
                                    d,
                                ) {
                                    Err((e, n)) => Err((e, n1 + n2 + n3 + n4 + n5 + n)),
                                    Ok((additional_header, n6)) => Ok(
                                        (
                                            RequestHeaderView {
                                                timestamp,
                                                request_handle,
                                                return_diagnostics,
                                                audit_entry_id,
                                                timeout_hint,
                                                additional_header,
                                            },
                                            n1 + n2 + n3 + n4 + n5 + n6,
                                        ),
                                    ),
                                },
                            },
                        },
                    },
                },
            }
        }
    }

    proof fn lemma_dec_bounds(s: Seq<u8>, limits: DecodingLimits, depth: int) {
        if depth < limits.max_nesting_level {
            let d = depth + 1;
            <i64 as BinaryCodec>::lemma_dec_bounds(s, limits, d);
            if let Ok((_, n1)) = <i64 as BinaryCodec>::dec(s, limits, d) {
                <u32 as BinaryCodec>::lemma_dec_bounds(s.skip(n1), limits, d);
                if let Ok((_, n2)) = <u32 as BinaryCodec>::dec(s.skip(n1), limits, d) {
                    assert(s.skip(n1).skip(n2) =~= s.skip(n1 + n2));
                    <u32 as BinaryCodec>::lemma_dec_bounds(s.skip(n1 + n2), limits, d);
                    if let Ok((_, n3)) = <u32 as BinaryCodec>::dec(s.skip(n1 + n2), limits, d) {
                        assert(s.skip(n1 + n2).skip(n3) =~= s.skip(n1 + n2 + n3));
                        ByteString::lemma_dec_bounds(s.skip(n1 + n2 + n3), limits, d);
                        if let Ok((_, n4)) = ByteString::dec(s.skip(n1 + n2 + n3), limits, d) {
                            assert(s.skip(n1 + n2 + n3).skip(n4) =~= s.skip(n1 + n2 + n3 + n4));
                            <u32 as BinaryCodec>::lemma_dec_bounds(
                                s.skip(n1 + n2 + n3 + n4),
                                limits,
                                d,
                            );
                            if let Ok((_, n5)) = <u32 as BinaryCodec>::dec(
                                s.skip(n1 + n2 + n3 + n4),
                                limits,
                                d,
                            ) {
                                assert(s.skip(n1 + n2 + n3 + n4).skip(n5) =~= s.skip(
                                    n1 + n2 + n3 + n4 + n5,
                                ));
                                ExtensionObject::lemma_dec_bounds(
                                    s.skip(n1 + n2 + n3 + n4 + n5),
                                    limits,
                                    d,
                                );
                            }
                        }
                    }
                }
            }
        }
    }

    #[verifier::spinoff_prover]
    #[verifier::rlimit(50)]
    proof fn lemma_complete(m: RequestHeaderView, rest: Seq<u8>, limits: DecodingLimits, depth: int) {
        let d = depth + 1;
        let w1 = <i64 as BinaryCodec>::wire(m.timestamp);
        let w2 = <u32 as BinaryCodec>::wire(m.request_handle);
        let w3 = <u32 as BinaryCodec>::wire(m.return_diagnostics);
        let w4 = ByteString::wire(m.audit_entry_id);
        let w5 = <u32 as BinaryCodec>::wire(m.timeout_hint);
        let w6 = ExtensionObject::wire(m.additional_header);
        let t6 = w6 + rest;
        let t5 = w5 + t6;
        let t4 = w4 + t5;
        let t3 = w3 + t4;
        let t2 = w2 + t3;
        let s = Self::wire(m) + rest;
        assert(s =~= w1 + t2);
        <i64 as BinaryCodec>::lemma_complete(m.timestamp, t2, limits, d);
        assert(s.skip(w1.len() as int) =~= t2);
        <u32 as BinaryCodec>::lemma_complete(m.request_handle, t3, limits, d);
        assert(s.skip((w1.len() + w2.len()) as int) =~= t3);
        <u32 as BinaryCodec>::lemma_complete(m.return_diagnostics, t4, limits, d);
        assert(s.skip((w1.len() + w2.len() + w3.len()) as int) =~= t4);
        ByteString::lemma_complete(m.audit_entry_id, t5, limits, d);
        assert(s.skip((w1.len() + w2.len() + w3.len() + w4.len()) as int) =~= t5);
        <u32 as BinaryCodec>::lemma_complete(m.timeout_hint, t6, limits, d);
        assert(s.skip((w1.len() + w2.len() + w3.len() + w4.len() + w5.len()) as int) =~= t6);
        ExtensionObject::lemma_complete(m.additional_header, rest, limits, d);
        assert(m == RequestHeaderView {
            timestamp: m.timestamp,
            request_handle: m.request_handle,
            return_diagnostics: m.return_diagnostics,
            audit_entry_id: m.audit_entry_id,
            timeout_hint: m.timeout_hint,
            additional_header: m.additional_header,
        });
    }

    fn byte_len(&self) -> (r: usize) {
        let mut size: usize = self.timestamp.byte_len();
        size = size + self.request_handle.byte_len();
        size = size + self.return_diagnostics.byte_len();
        size = size + self.audit_entry_id.byte_len();
        size = size + self.timeout_hint.byte_len();
        size = size + self.additional_header.byte_len();
        size
    }

    fn encode(&self, sink: &mut Vec<u8>) -> (r: Result<usize, EncodingError>) {
        let mut size: usize = self.timestamp.encode(sink)?;
        size = size + self.request_handle.encode(sink)?;
        size = size + self.return_diagnostics.encode(sink)?;
        size = size + self.audit_entry_id.encode(sink)?;
        size = size + self.timeout_hint.encode(sink)?;
        size = size + self.additional_header.encode(sink)?;
        proof {
            assert(sink@ =~= old(sink)@ + Self::wire(self.deep_view()));
        }
        Ok(size)
    }

    fn decode(source: &mut Reader, limits: &DecodingLimits, depth: usize) -> (r: Result<
        RequestHeader,
        EncodingError,
    >) {
        if depth >= limits.max_nesting_level {
            return Err(EncodingError::LimitExceeded);
        }
        let d = depth + 1;
        let ghost pre = *source;
        let ghost s = pre.remaining();
        let ghost dd = d as int;
        let ghost p1 = *source;
        let timestamp = <i64 as BinaryCodec>::decode(source, limits, d)?;
        proof {
            <i64 as BinaryCodec>::lemma_dec_bounds(p1.remaining(), *limits, dd);
            assert(source.remaining() =~= s.skip(source.pos - pre.pos));
        }
        let ghost p2 = *source;
        let request_handle = <u32 as BinaryCodec>::decode(source, limits, d)?;
        proof {
            <u32 as BinaryCodec>::lemma_dec_bounds(p2.remaining(), *limits, dd);
            assert(source.remaining() =~= s.skip(source.pos - pre.pos));
        }
        let ghost p3 = *source;
        let return_diagnostics = <u32 as BinaryCodec>::decode(source, limits, d)?;
        proof {
            <u32 as BinaryCodec>::lemma_dec_bounds(p3.remaining(), *limits, dd);
            assert(source.remaining() =~= s.skip(source.pos - pre.pos));
        }
        let ghost p4 = *source;
        let audit_entry_id = ByteString::decode(source, limits, d)?;
        proof {
            ByteString::lemma_dec_bounds(p4.remaining(), *limits, dd);
            assert(source.remaining() =~= s.skip(source.pos - pre.pos));
        }
        let ghost p5 = *source;
        let timeout_hint = <u32 as BinaryCodec>::decode(source, limits, d)?;
        proof {
            <u32 as BinaryCodec>::lemma_dec_bounds(p5.remaining(), *limits, dd);
            assert(source.remaining() =~= s.skip(source.pos - pre.pos));
        }
        let additional_header = ExtensionObject::decode(source, limits, d)?;
        Ok(
            RequestHeader {
                timestamp,
                request_handle,
                return_diagnostics,
                audit_entry_id,
                timeout_hint,
                additional_header,
            },
        )
    }
}

/// The header every service response starts with.  Like the request
/// header, it is an ordinary structured record to the codec.
#[derive(Clone, Debug, PartialEq, Eq)]
pub struct ResponseHeader {
    pub timestamp: i64,
    pub request_handle: u32,
    pub service_result: StatusCode,
    pub string_table: Option<Vec<ByteString>>,
    pub additional_header: ExtensionObject,
}

/// The abstraction of a response header.
pub struct ResponseHeaderView {
    pub timestamp: i64,
    pub request_handle: u32,
    pub service_result: StatusCode,
    pub string_table: Option<Seq<Option<Seq<u8>>>>,
    pub additional_header: ExtensionObjectView,
}

impl DeepView for ResponseHeader {
    type V = ResponseHeaderView;

    open spec fn deep_view(&self) -> ResponseHeaderView {
        ResponseHeaderView {
            timestamp: self.timestamp,
            request_handle: self.request_handle,
            service_result: self.service_result,
            string_table: self.string_table.deep_view(),
            additional_header: self.additional_header.deep_view(),
        }
    }
}

impl BinaryCodec for ResponseHeader {
    open spec fn wire(m: ResponseHeaderView) -> Seq<u8> {
        <i64 as BinaryCodec>::wire(m.timestamp) + (<u32 as BinaryCodec>::wire(m.request_handle) + (
        StatusCode::wire(m.service_result) + (<Option<Vec<ByteString>> as BinaryCodec>::wire(
            m.string_table,
        ) + ExtensionObject::wire(m.additional_header))))
    }

    open spec fn wf(m: ResponseHeaderView, limits: DecodingLimits) -> bool {
        &&& <Option<Vec<ByteString>> as BinaryCodec>::wf(m.string_table, limits)
        &&& ExtensionObject::wf(m.additional_header, limits)
    }

    open spec fn levels() -> int {
        1
    }

    open spec fn dec(s: Seq<u8>, limits: DecodingLimits, depth: int) -> DecOutcome<
        ResponseHeaderView,
    > {
        if depth >= limits.max_nesting_level {
            Err((EncodingError::LimitExceeded, 0))
        } else {
            let d = depth + 1;
            match <i64 as BinaryCodec>::dec(s, limits, d) {
                Err((e, n)) => Err((e, n)),
                Ok((timestamp, n1)) => match <u32 as BinaryCodec>::dec(s.skip(n1), limits, d) {
                    Err((e, n)) => Err((e, n1 + n)),
                    Ok((request_handle, n2)) => match StatusCode::dec(s.skip(n1 + n2), limits, d) {
                        Err((e, n)) => Err((e, n1 + n2 + n)),
                        Ok((service_result, n3)) => match <Option<
                            Vec<ByteString>,
                        > as BinaryCodec>::dec(s.skip(n1 + n2 + n3), limits, d) {
                            Err((e, n)) => Err((e, n1 + n2 + n3 + n)),
                            Ok((string_table, n4)) => match ExtensionObject::dec(
                                s.skip(n1 + n2 + n3 + n4),
                                limits,
                                d,
                            ) {
                                Err((e, n)) => Err((e, n1 + n2 + n3 + n4 + n)),
                                Ok((additional_header, n5)) => Ok(
                                    (
                                        ResponseHeaderView {
                                            timestamp,
                                            request_handle,
                                            service_result,
                                            string_table,
                                            additional_header,
                                        },
                                        n1 + n2 + n3 + n4 + n5,
                                    ),
                                ),
                            },
                        },
                    },
                },
            }
        }
    }

    proof fn lemma_dec_bounds(s: Seq<u8>, limits: DecodingLimits, depth: int) {
        if depth < limits.max_nesting_level {
            let d = depth + 1;
            <i64 as BinaryCodec>::lemma_dec_bounds(s, limits, d);
            if let Ok((_, n1)) = <i64 as BinaryCodec>::dec(s, limits, d) {
                <u32 as BinaryCodec>::lemma_dec_bounds(s.skip(n1), limits, d);
                if let Ok((_, n2)) = <u32 as BinaryCodec>::dec(s.skip(n1), limits, d) {
                    assert(s.skip(n1).skip(n2) =~= s.skip(n1 + n2));
                    StatusCode::lemma_dec_bounds(s.skip(n1 + n2), limits, d);
                    if let Ok((_, n3)) = StatusCode::dec(s.skip(n1 + n2), limits, d) {
                        assert(s.skip(n1 + n2).skip(n3) =~= s.skip(n1 + n2 + n3));
                        <Option<Vec<ByteString>> as BinaryCodec>::lemma_dec_bounds(
                            s.skip(n1 + n2 + n3),
                            limits,
                            d,
                        );
                        if let Ok((_, n4)) = <Option<Vec<ByteString>> as BinaryCodec>::dec(
                            s.skip(n1 + n2 + n3),
                            limits,
                            d,
                        ) {
                            assert(s.skip(n1 + n2 + n3).skip(n4) =~= s.skip(n1 + n2 + n3 + n4));
                            ExtensionObject::lemma_dec_bounds(s.skip(n1 + n2 + n3 + n4), limits, d);
                        }
                    }
                }
            }
        }
    }

    #[verifier::spinoff_prover]
    #[verifier::rlimit(50)]
    proof fn lemma_complete(m: ResponseHeaderView, rest: Seq<u8>, limits: DecodingLimits, depth: int) {
        let d = depth + 1;
        let w1 = <i64 as BinaryCodec>::wire(m.timestamp);
        let w2 = <u32 as BinaryCodec>::wire(m.request_handle);
        let w3 = StatusCode::wire(m.service_result);
        let w4 = <Option<Vec<ByteString>> as BinaryCodec>::wire(m.string_table);
        let w5 = ExtensionObject::wire(m.additional_header);
        let t5 = w5 + rest;
        let t4 = w4 + t5;
        let t3 = w3 + t4;
        let t2 = w2 + t3;
        let s = Self::wire(m) + rest;
        assert(s =~= w1 + t2);
        <i64 as BinaryCodec>::lemma_complete(m.timestamp, t2, limits, d);
        assert(s.skip(w1.len() as int) =~= t2);
        <u32 as BinaryCodec>::lemma_complete(m.request_handle, t3, limits, d);
        assert(s.skip((w1.len() + w2.len()) as int) =~= t3);
        StatusCode::lemma_complete(m.service_result, t4, limits, d);
        assert(s.skip((w1.len() + w2.len() + w3.len()) as int) =~= t4);
        <Option<Vec<ByteString>> as BinaryCodec>::lemma_complete(m.string_table, t5, limits, d);
        assert(s.skip((w1.len() + w2.len() + w3.len() + w4.len()) as int) =~= t5);
        ExtensionObject::lemma_complete(m.additional_header, rest, limits, d);
        assert(m == ResponseHeaderView {
            timestamp: m.timestamp,
            request_handle: m.request_handle,
            service_result: m.service_result,
            string_table: m.string_table,
            additional_header: m.additional_header,
        });
    }

    fn byte_len(&self) -> (r: usize) {
        let mut size: usize = self.timestamp.byte_len();
        size = size + self.request_handle.byte_len();
        size = size + self.service_result.byte_len();
        size = size + self.string_table.byte_len();
        size = size + self.additional_header.byte_len();
        size
    }

    fn encode(&self, sink: &mut Vec<u8>) -> (r: Result<usize, EncodingError>) {
        let mut size: usize = self.timestamp.encode(sink)?;
        size = size + self.request_handle.encode(sink)?;
        size = size + self.service_result.encode(sink)?;
        size = size + self.string_table.encode(sink)?;
        size = size + self.additional_header.encode(sink)?;
        proof {
            assert(sink@ =~= old(sink)@ + Self::wire(self.deep_view()));
        }
        Ok(size)
    }

    fn decode(source: &mut Reader, limits: &DecodingLimits, depth: usize) -> (r: Result<
        ResponseHeader,
        EncodingError,
    >) {
        if depth >= limits.max_nesting_level {
            return Err(EncodingError::LimitExceeded);
        }
        let d = depth + 1;
        let ghost pre = *source;
        let ghost s = pre.remaining();
        let ghost dd = d as int;
        let ghost p1 = *source;
        let timestamp = <i64 as BinaryCodec>::decode(source, limits, d)?;
        proof {
            <i64 as BinaryCodec>::lemma_dec_bounds(p1.remaining(), *limits, dd);
            assert(source.remaining() =~= s.skip(source.pos - pre.pos));
        }
        let ghost p2 = *source;
        let request_handle = <u32 as BinaryCodec>::decode(source, limits, d)?;
        proof {
            <u32 as BinaryCodec>::lemma_dec_bounds(p2.remaining(), *limits, dd);
            assert(source.remaining() =~= s.skip(source.pos - pre.pos));
        }
        let ghost p3 = *source;
        let service_result = StatusCode::decode(source, limits, d)?;
        proof {
            StatusCode::lemma_dec_bounds(p3.remaining(), *limits, dd);
            assert(source.remaining() =~= s.skip(source.pos - pre.pos));
        }
        let ghost p4 = *source;
        let string_table = <Option<Vec<ByteString>> as BinaryCodec>::decode(source, limits, d)?;
        proof {
            <Option<Vec<ByteString>> as BinaryCodec>::lemma_dec_bounds(
                p4.remaining(),
                *limits,
                dd,
            );
            assert(source.remaining() =~= s.skip(source.pos - pre.pos));
        }
        let additional_header = ExtensionObject::decode(source, limits, d)?;
        Ok(
            ResponseHeader {
                timestamp,
                request_handle,
                service_result,
                string_table,
                additional_header,
            },
        )
    }
}

} // verus!
