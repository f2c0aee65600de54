use vstd::prelude::*;

use crate::codec::{BinaryCodec, DecOutcome};
use crate::errors::EncodingError;
use crate::extension_object::{ExtensionObject, ExtensionObjectView};
use crate::headers::{RequestHeader, RequestHeaderView, ResponseHeader, ResponseHeaderView};
use crate::limits::DecodingLimits;
use crate::reader::Reader;
use crate::strings::ByteString;

verus! {

broadcast use vstd::seq_lib::lemma_seq_skip_of_skip;

/// The type identifier of the binary-encoded form of
/// `SetPublishingModeRequest`.
pub const SET_PUBLISHING_MODE_REQUEST_ID: u32 = 799;

/// The type identifier of the binary-encoded form of
/// `UnregisterNodesResponse`.
pub const UNREGISTER_NODES_RESPONSE_ID: u32 = 567;

/// The type identifier of the binary-encoded form of `WriteRequest`.
pub const WRITE_REQUEST_ID: u32 = 673;

/// One attribute write: which node, which attribute, an optional index
/// range into it, and the new value as a polymorphic field.
#[derive(Clone, Debug, PartialEq, Eq)]
pub struct WriteValue {
    pub node_id: u32,
    pub attribute_id: u32,
    pub index_range: ByteString,
    pub value: ExtensionObject,
}

/// The abstraction of one attribute write.
pub struct WriteValueView {
    pub node_id: u32,
    pub attribute_id: u32,
    pub index_range: Option<Seq<u8>>,
    pub value: ExtensionObjectView,
}

impl DeepView for WriteValue {
    type V = WriteValueView;

    open spec fn deep_view(&self) -> WriteValueView {
        WriteValueView {
            node_id: self.node_id,
            attribute_id: self.attribute_id,
            index_range: self.index_range.deep_view(),
            value: self.value.deep_view(),
        }
    }
}

impl BinaryCodec for WriteValue {
    open spec fn wire(m: WriteValueView) -> Seq<u8> {
        <u32 as BinaryCodec>::wire(m.node_id) + (<u32 as BinaryCodec>::wire(m.attribute_id) + (
        ByteString::wire(m.index_range) + ExtensionObject::wire(m.value)))
    }

    open spec fn wf(m: WriteValueView, limits: DecodingLimits) -> bool {
        &&& ByteString::wf(m.index_range, limits)
        &&& ExtensionObject::wf(m.value, limits)
    }

    open spec fn levels() -> int {
        1
    }

    open spec fn dec(s: Seq<u8>, limits: DecodingLimits, depth: int) -> DecOutcome<WriteValueView> {
        if depth >= limits.max_nesting_level {
            Err((EncodingError::LimitExceeded, 0))
        } else {
            let d = depth + 1;
            match <u32 as BinaryCodec>::dec(s, limits, d) {
                Err((e, n)) => Err((e, n)),
                Ok((node_id, n1)) => match <u32 as BinaryCodec>::dec(s.skip(n1), limits, d) {
                    Err((e, n)) => Err((e, n1 + n)),
                    Ok((attribute_id, n2)) => match ByteString::dec(s.skip(n1 + n2), limits, d) {
                        Err((e, n)) => Err((e, n1 + n2 + n)),
                        Ok((index_range, n3)) => match ExtensionObject::dec(
                            s.skip(n1 + n2 + n3),
                            limits,
                            d,
                        ) {
                            Err((e, n)) => Err((e, n1 + n2 + n3 + n)),
                            Ok((value, n4)) => Ok(
                                (
                                    WriteValueView { node_id, attribute_id, index_range, value },
                                    n1 + n2 + n3 + n4,
                                ),
                            ),
                        },
                    },
                },
            }
        }
    }

    proof fn lemma_dec_bounds(s: Seq<u8>, limits: DecodingLimits, depth: int) {
        if depth < limits.max_nesting_level {
            let d = depth + 1;
            <u32 as BinaryCodec>::lemma_dec_bounds(s, limits, d);
            if let Ok((_, n1)) = <u32 as BinaryCodec>::dec(s, limits, d) {
                <u32 as BinaryCodec>::lemma_dec_bounds(s.skip(n1), limits, d);
                if let Ok((_, n2)) = <u32 as BinaryCodec>::dec(s.skip(n1), limits, d) {
                    assert(s.skip(n1).skip(n2) =~= s.skip(n1 + n2));
                    ByteString::lemma_dec_bounds(s.skip(n1 + n2), limits, d);
                    if let Ok((_, n3)) = ByteString::dec(s.skip(n1 + n2), limits, d) {
                        assert(s.skip(n1 + n2).skip(n3) =~= s.skip(n1 + n2 + n3));
                        ExtensionObject::lemma_dec_bounds(s.skip(n1 + n2 + n3), limits, d);
                    }
                }
            }
        }
    }

    #[verifier::spinoff_prover]
    #[verifier::rlimit(50)]
    proof fn lemma_complete(m: WriteValueView, rest: Seq<u8>, limits: DecodingLimits, depth: int) {
        let d = depth + 1;
        let w1 = <u32 as BinaryCodec>::wire(m.node_id);
        let w2 = <u32 as BinaryCodec>::wire(m.attribute_id);
        let w3 = ByteString::wire(m.index_range);
        let w4 = ExtensionObject::wire(m.value);
        let t4 = w4 + rest;
        let t3 = w3 + t4;
        let t2 = w2 + t3;
        let s = Self::wire(m) + rest;
        assert(s =~= w1 + t2);
        <u32 as BinaryCodec>::lemma_complete(m.node_id, t2, limits, d);
        assert(s.skip(w1.len() as int) =~= t2);
        <u32 as BinaryCodec>::lemma_complete(m.attribute_id, t3, limits, d);
        assert(s.skip((w1.len() + w2.len()) as int) =~= t3);
        ByteString::lemma_complete(m.index_range, t4, limits, d);
        assert(s.skip((w1.len() + w2.len() + w3.len()) as int) =~= t4);
        ExtensionObject::lemma_complete(m.value, rest, limits, d);
        assert(m == WriteValueView {
            node_id: m.node_id,
            attribute_id: m.attribute_id,
            index_range: m.index_range,
            value: m.value,
        });
    }

    fn byte_len(&self) -> (r: usize) {
        let mut size: usize = self.node_id.byte_len();
        size = size + self.attribute_id.byte_len();
        size = size + self.index_range.byte_len();
        size = size + self.value.byte_len();
        size
    }

    fn encode(&self, sink: &mut Vec<u8>) -> (r: Result<usize, EncodingError>) {
        let mut size: usize = self.node_id.encode(sink)?;
        size = size + self.attribute_id.encode(sink)?;
        size = size + self.index_range.encode(sink)?;
        size = size + self.value.encode(sink)?;
        proof {
            assert(sink@ =~= old(sink)@ + Self::wire(self.deep_view()));
        }
        Ok(size)
    }

    fn decode(source: &mut Reader, limits: &DecodingLimits, depth: usize) -> (r: Result<
        WriteValue,
        EncodingError,
    >) {
        if depth >= limits.max_nesting_level {
            return Err(EncodingError::LimitExceeded);
        }
        let d = depth + 1;
        let ghost pre = *source;
        let ghost s = pre.remaining();
        let ghost dd = d as int;
        let ghost p1 = *source;
        let node_id = <u32 as BinaryCodec>::decode(source, limits, d)?;
        proof {
            <u32 as BinaryCodec>::lemma_dec_bounds(p1.remaining(), *limits, dd);
            assert(source.remaining() =~= s.skip(source.pos - pre.pos));
        }
        let ghost p2 = *source;
        let attribute_id = <u32 as BinaryCodec>::decode(source, limits, d)?;
        proof {
            <u32 as BinaryCodec>::lemma_dec_bounds(p2.remaining(), *limits, dd);
            assert(source.remaining() =~= s.skip(source.pos - pre.pos));
        }
        let ghost p3 = *source;
        let index_range = ByteString::decode(source, limits, d)?;
        proof {
            ByteString::lemma_dec_bounds(p3.remaining(), *limits, dd);
            assert(source.remaining() =~= s.skip(source.pos - pre.pos));
        }
        let value = ExtensionObject::decode(source, limits, d)?;
        Ok(WriteValue { node_id, attribute_id, index_range, value })
    }
}

/// Asks the server to enable or disable publishing for a set of
/// subscriptions.
#[derive(Clone, Debug, PartialEq, Eq)]
pub struct SetPublishingModeRequest {
    pub request_header: RequestHeader,
    pub publishing_enabled: bool,
    pub subscription_ids: Option<Vec<u32>>,
}

/// The abstraction of a publishing-mode request.
pub struct SetPublishingModeRequestView {
    pub request_header: RequestHeaderView,
    pub publishing_enabled: bool,
    pub subscription_ids: Option<Seq<u32>>,
}

impl DeepView for SetPublishingModeRequest {
    type V = SetPublishingModeRequestView;

    open spec fn deep_view(&self) -> SetPublishingModeRequestView {
        SetPublishingModeRequestView {
            request_header: self.request_header.deep_view(),
            publishing_enabled: self.publishing_enabled,
            subscription_ids: self.subscription_ids.deep_view(),
        }
    }
}

impl SetPublishingModeRequest {
    /// The type identifier under which this record's binary form is
    /// registered.
    pub fn object_id(&self) -> (r: u32)
        ensures
            r == SET_PUBLISHING_MODE_REQUEST_ID,
    {
        SET_PUBLISHING_MODE_REQUEST_ID
    }
}

impl BinaryCodec for SetPublishingModeRequest {
    open spec fn wire(m: SetPublishingModeRequestView) -> Seq<u8> {
        RequestHeader::wire(m.request_header) + (<bool as BinaryCodec>::wire(m.publishing_enabled)
            + <Option<Vec<u32>> as BinaryCodec>::wire(m.subscription_ids))
    }

    open spec fn wf(m: SetPublishingModeRequestView, limits: DecodingLimits) -> bool {
        &&& RequestHeader::wf(m.request_header, limits)
        &&& <Option<Vec<u32>> as BinaryCodec>::wf(m.subscription_ids, limits)
    }

    open spec fn levels() -> int {
        2
    }

    open spec fn dec(s: Seq<u8>, limits: DecodingLimits, depth: int) -> DecOutcome<
        SetPublishingModeRequestView,
    > {
        if depth >= limits.max_nesting_level {
            Err((EncodingError::LimitExceeded, 0))
        } else {
            let d = depth + 1;
            match RequestHeader::dec(s, limits, d) {
                Err((e, n)) => Err((e, n)),
                Ok((request_header, n1)) => match <bool as BinaryCodec>::dec(
                    s.skip(n1),
                    limits,
                    d,
                ) {
                    Err((e, n)) => Err((e, n1 + n)),
                    Ok((publishing_enabled, n2)) => match <Option<Vec<u32>> as BinaryCodec>::dec(
                        s.skip(n1 + n2),
                        limits,
                        d,
                    ) {
                        Err((e, n)) => Err((e, n1 + n2 + n)),
                        Ok((subscription_ids, n3)) => Ok(
                            (
                                SetPublishingModeRequestView {
                                    request_header,
                                    publishing_enabled,
                                    subscription_ids,
                                },
                                n1 + n2 + n3,
                            ),
                        ),
                    },
                },
            }
        }
    }

    proof fn lemma_dec_bounds(s: Seq<u8>, limits: DecodingLimits, depth: int) {
        if depth < limits.max_nesting_level {
            let d = depth + 1;
            RequestHeader::lemma_dec_bounds(s, limits, d);
            if let Ok((_, n1)) = RequestHeader::dec(s, limits, d) {
                <bool as BinaryCodec>::lemma_dec_bounds(s.skip(n1), limits, d);
                if let Ok((_, n2)) = <bool as BinaryCodec>::dec(s.skip(n1), limits, d) {
                    assert(s.skip(n1).skip(n2) =~= s.skip(n1 + n2));
                    <Option<Vec<u32>> as BinaryCodec>::lemma_dec_bounds(
                        s.skip(n1 + n2),
                        limits,
                        d,
                    );
                }
            }
        }
    }

    #[verifier::spinoff_prover]
    #[verifier::rlimit(50)]
    proof fn lemma_complete(
        m: SetPublishingModeRequestView,
        rest: Seq<u8>,
        limits: DecodingLimits,
        depth: int,
    ) {
        let d = depth + 1;
        let w1 = RequestHeader::wire(m.request_header);
        let w2 = <bool as BinaryCodec>::wire(m.publishing_enabled);
        let w3 = <Option<Vec<u32>> as BinaryCodec>::wire(m.subscription_ids);
        let t3 = w3 + rest;
        let t2 = w2 + t3;
        let s = Self::wire(m) + rest;
        assert(s =~= w1 + t2);
        RequestHeader::lemma_complete(m.request_header, t2, limits, d);
        assert(s.skip(w1.len() as int) =~= t2);
        <bool as BinaryCodec>::lemma_complete(m.publishing_enabled, t3, limits, d);
        assert(s.skip((w1.len() + w2.len()) as int) =~= t3);
        <Option<Vec<u32>> as BinaryCodec>::lemma_complete(m.subscription_ids, rest, limits, d);
        assert(m == SetPublishingModeRequestView {
            request_header: m.request_header,
            publishing_enabled: m.publishing_enabled,
            subscription_ids: m.subscription_ids,
        });
    }

    fn byte_len(&self) -> (r: usize) {
        let mut size: usize = self.request_header.byte_len();
        size = size + self.publishing_enabled.byte_len();
        size = size + self.subscription_ids.byte_len();
        size
    }

    fn encode(&self, sink: &mut Vec<u8>) -> (r: Result<usize, EncodingError>) {
        let mut size: usize = self.request_header.encode(sink)?;
        size = size + self.publishing_enabled.encode(sink)?;
        size = size + self.subscription_ids.encode(sink)?;
        proof {
            assert(sink@ =~= old(sink)@ + Self::wire(self.deep_view()));
        }
        Ok(size)
    }

    fn decode(source: &mut Reader, limits: &DecodingLimits, depth: usize) -> (r: Result<
        SetPublishingModeRequest,
        EncodingError,
    >) {
        if depth >= limits.max_nesting_level {
            return Err(EncodingError::LimitExceeded);
        }
        let d = depth + 1;
        let ghost pre = *source;
        let ghost s = pre.remaining();
        let ghost dd = d as int;
        let ghost p1 = *source;
        let request_header = RequestHeader::decode(source, limits, d)?;
        proof {
            RequestHeader::lemma_dec_bounds(p1.remaining(), *limits, dd);
            assert(source.remaining() =~= s.skip(source.pos - pre.pos));
        }
        let ghost p2 = *source;
        let publishing_enabled = <bool as BinaryCodec>::decode(source, limits, d)?;
        proof {
            <bool as BinaryCodec>::lemma_dec_bounds(p2.remaining(), *limits, dd);
            assert(source.remaining() =~= s.skip(source.pos - pre.pos));
        }
        let subscription_ids = <Option<Vec<u32>> as BinaryCodec>::decode(source, limits, d)?;
        Ok(SetPublishingModeRequest { request_header, publishing_enabled, subscription_ids })
    }
}

/// The response to an unregister-nodes request: nothing beyond the
/// response header.
#[derive(Clone, Debug, PartialEq, Eq)]
pub struct UnregisterNodesResponse {
    pub response_header: ResponseHeader,
}

/// The abstraction of an unregister-nodes response.
pub struct UnregisterNodesResponseView {
    pub response_header: ResponseHeaderView,
}

impl DeepView for UnregisterNodesResponse {
    type V = UnregisterNodesResponseView;

    open spec fn deep_view(&self) -> UnregisterNodesResponseView {
        UnregisterNodesResponseView { response_header: self.response_header.deep_view() }
    }
}

impl UnregisterNodesResponse {
    /// The type identifier under which this record's binary form is
    /// registered.
    pub fn object_id(&self) -> (r: u32)
        ensures
            r == UNREGISTER_NODES_RESPONSE_ID,
    {
        UNREGISTER_NODES_RESPONSE_ID
    }
}

impl BinaryCodec for UnregisterNodesResponse {
    open spec fn wire(m: UnregisterNodesResponseView) -> Seq<u8> {
        ResponseHeader::wire(m.response_header)
    }

    open spec fn wf(m: UnregisterNodesResponseView, limits: DecodingLimits) -> bool {
        ResponseHeader::wf(m.response_header, limits)
    }

    open spec fn levels() -> int {
        2
    }

    open spec fn dec(s: Seq<u8>, limits: DecodingLimits, depth: int) -> DecOutcome<
        UnregisterNodesResponseView,
    > {
        if depth >= limits.max_nesting_level {
            Err((EncodingError::LimitExceeded, 0))
        } else {
            let d = depth + 1;
            match ResponseHeader::dec(s, limits, d) {
                Err((e, n)) => Err((e, n)),
                Ok((response_header, n1)) => Ok(
                    (UnregisterNodesResponseView { response_header }, n1),
                ),
            }
        }
    }

    proof fn lemma_dec_bounds(s: Seq<u8>, limits: DecodingLimits, depth: int) {
        if depth < limits.max_nesting_level {
            ResponseHeader::lemma_dec_bounds(s, limits, depth + 1);
        }
    }

    proof fn lemma_complete(
        m: UnregisterNodesResponseView,
        rest: Seq<u8>,
        limits: DecodingLimits,
        depth: int,
    ) {
        ResponseHeader::lemma_complete(m.response_header, rest, limits, depth + 1);
        assert(m == UnregisterNodesResponseView { response_header: m.response_header });
    }

    fn byte_len(&self) -> (r: usize) {
        self.response_header.byte_len()
    }

    fn encode(&self, sink: &mut Vec<u8>) -> (r: Result<usize, EncodingError>) {
        let size = self.response_header.encode(sink)?;
        Ok(size)
    }

    fn decode(source: &mut Reader, limits: &DecodingLimits, depth: usize) -> (r: Result<
        UnregisterNodesResponse,
        EncodingError,
    >) {
        if depth >= limits.max_nesting_level {
            return Err(EncodingError::LimitExceeded);
        }
        let response_header = ResponseHeader::decode(source, limits, depth + 1)?;
        Ok(UnregisterNodesResponse { response_header })
    }
}

/// Asks the server to write values to node attributes.
#[derive(Clone, Debug, PartialEq, Eq)]
pub struct WriteRequest {
    pub request_header: RequestHeader,
    pub nodes_to_write: Option<Vec<WriteValue>>,
}

/// The abstraction of a write request.
pub struct WriteRequestView {
    pub request_header: RequestHeaderView,
    pub nodes_to_write: Option<Seq<WriteValueView>>,
}

impl DeepView for WriteRequest {
    type V = WriteRequestView;

    open spec fn deep_view(&self) -> WriteRequestView {
        WriteRequestView {
            request_header: self.request_header.deep_view(),
            nodes_to_write: self.nodes_to_write.deep_view(),
        }
    }
}

impl WriteRequest {
    /// The type identifier under which this record's binary form is
    /// registered.
    pub fn object_id(&self) -> (r: u32)
        ensures
            r == WRITE_REQUEST_ID,
    {
        WRITE_REQUEST_ID
    }
}

impl BinaryCodec for WriteRequest {
    open spec fn wire(m: WriteRequestView) -> Seq<u8> {
        RequestHeader::wire(m.request_header) + <Option<Vec<WriteValue>> as BinaryCodec>::wire(
            m.nodes_to_write,
        )
    }

    open spec fn wf(m: WriteRequestView, limits: DecodingLimits) -> bool {
        &&& RequestHeader::wf(m.request_header, limits)
        &&& <Option<Vec<WriteValue>> as BinaryCodec>::wf(m.nodes_to_write, limits)
    }

    open spec fn levels() -> int {
        2
    }

    open spec fn dec(s: Seq<u8>, limits: DecodingLimits, depth: int) -> DecOutcome<
        WriteRequestView,
    > {
        if depth >= limits.max_nesting_level {
            Err((EncodingError::LimitExceeded, 0))
        } else {
            let d = depth + 1;
            match RequestHeader::dec(s, limits, d) {
                Err((e, n)) => Err((e, n)),
                Ok((request_header, n1)) => match <Option<Vec<WriteValue>> as BinaryCodec>::dec(
                    s.skip(n1),
                    limits,
                    d,
                ) {
                    Err((e, n)) => Err((e, n1 + n)),
                    Ok((nodes_to_write, n2)) => Ok(
                        (WriteRequestView { request_header, nodes_to_write }, n1 + n2),
                    ),
                },
            }
        }
    }

    proof fn lemma_dec_bounds(s: Seq<u8>, limits: DecodingLimits, depth: int) {
        if depth < limits.max_nesting_level {
            let d = depth + 1;
            RequestHeader::lemma_dec_bounds(s, limits, d);
            if let Ok((_, n1)) = RequestHeader::dec(s, limits, d) {
                <Option<Vec<WriteValue>> as BinaryCodec>::lemma_dec_bounds(s.skip(n1), limits, d);
            }
        }
    }

    #[verifier::spinoff_prover]
    #[verifier::rlimit(50)]
    proof fn lemma_complete(m: WriteRequestView, rest: Seq<u8>, limits: DecodingLimits, depth: int) {
        let d = depth + 1;
        let w1 = RequestHeader::wire(m.request_header);
        let w2 = <Option<Vec<WriteValue>> as BinaryCodec>::wire(m.nodes_to_write);
        let t2 = w2 + rest;
        let s = Self::wire(m) + rest;
        assert(s =~= w1 + t2);
        RequestHeader::lemma_complete(m.request_header, t2, limits, d);
        assert(s.skip(w1.len() as int) =~= t2);
        <Option<Vec<WriteValue>> as BinaryCodec>::lemma_complete(m.nodes_to_write, rest, limits, d);
        assert(m == WriteRequestView {
            request_header: m.request_header,
            nodes_to_write: m.nodes_to_write,
        });
    }

    fn byte_len(&self) -> (r: usize) {
        let mut size: usize = self.request_header.byte_len();
        size = size + self.nodes_to_write.byte_len();
        size
    }

    fn encode(&self, sink: &mut Vec<u8>) -> (r: Result<usize, EncodingError>) {
        let mut size: usize = self.request_header.encode(sink)?;
        size = size + self.nodes_to_write.encode(sink)?;
        proof {
            assert(sink@ =~= old(sink)@ + Self::wire(self.deep_view()));
        }
        Ok(size)
    }

    fn decode(source: &mut Reader, limits: &DecodingLimits, depth: usize) -> (r: Result<
        WriteRequest,
        EncodingError,
    >) {
        if depth >= limits.max_nesting_level {
            return Err(EncodingError::LimitExceeded);
        }
        let d = depth + 1;
        let ghost pre = *source;
        let ghost s = pre.remaining();
        let ghost dd = d as int;
        let ghost p1 = *source;
        let request_header = RequestHeader::decode(source, limits, d)?;
        proof {
            RequestHeader::lemma_dec_bounds(p1.remaining(), *limits, dd);
            assert(source.remaining() =~= s.skip(source.pos - pre.pos));
        }
        let nodes_to_write = <Option<Vec<WriteValue>> as BinaryCodec>::decode(source, limits, d)?;
        Ok(WriteRequest { request_header, nodes_to_write })
    }
}

} // verus!
