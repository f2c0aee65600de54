use std::collections::HashMap;

use vstd::prelude::*;

use crate::codec::BinaryCodec;
use crate::errors::EncodingError;
use crate::extension_object::{ContainerBody, ContainerBodyView, ExtensionObject, ExtensionObjectView};
use crate::limits::DecodingLimits;
use crate::reader::Reader;
use crate::service_types::{
    SetPublishingModeRequest, SetPublishingModeRequestView, UnregisterNodesResponse,
    UnregisterNodesResponseView, WriteRequest, WriteRequestView, SET_PUBLISHING_MODE_REQUEST_ID,
    UNREGISTER_NODES_RESPONSE_ID, WRITE_REQUEST_ID,
};

verus! {

broadcast use vstd::std_specs::hash::group_hash_axioms;

/// Names one structured record type the registry can dispatch to.  The
/// table of kinds is closed: the code generator adds a variant, an
/// identifier and a dispatch arm for every generated type.
#[derive(Clone, Copy, Debug, PartialEq, Eq, Structural)]
pub enum RecordKind {
    SetPublishingModeRequest,
    UnregisterNodesResponse,
    WriteRequest,
}

/// A structured record resolved out of a polymorphic container.
#[derive(Clone, Debug, PartialEq, Eq)]
pub enum DecodedRecord {
    SetPublishingModeRequest(SetPublishingModeRequest),
    UnregisterNodesResponse(UnregisterNodesResponse),
    WriteRequest(WriteRequest),
}

/// The abstraction of a resolved record.
pub enum DecodedRecordView {
    SetPublishingModeRequest(SetPublishingModeRequestView),
    UnregisterNodesResponse(UnregisterNodesResponseView),
    WriteRequest(WriteRequestView),
}

impl DeepView for DecodedRecord {
    type V = DecodedRecordView;

    open spec fn deep_view(&self) -> DecodedRecordView {
        match self {
            DecodedRecord::SetPublishingModeRequest(v) => DecodedRecordView::SetPublishingModeRequest(
                v.deep_view(),
            ),
            DecodedRecord::UnregisterNodesResponse(v) => DecodedRecordView::UnregisterNodesResponse(
                v.deep_view(),
            ),
            DecodedRecord::WriteRequest(v) => DecodedRecordView::WriteRequest(v.deep_view()),
        }
    }
}

/// What resolving a container against a registry table yields: the
/// decoded record of the registered kind, or the error that stops it.
/// An identifier absent from the table fails only here, at resolution;
/// the container itself decodes and travels fine.
pub open spec fn resolve_outcome(
    table: Map<u32, RecordKind>,
    m: ExtensionObjectView,
    limits: DecodingLimits,
    depth: int,
) -> Result<DecodedRecordView, EncodingError> {
    if !table.contains_key(m.type_id) {
        Err(EncodingError::UnknownTypeIdentifier)
    } else if depth >= limits.max_nesting_level {
        Err(EncodingError::LimitExceeded)
    } else {
        match m.body {
            ContainerBodyView::Binary(Option::Some(bytes)) => match table[m.type_id] {
                RecordKind::SetPublishingModeRequest => match SetPublishingModeRequest::dec(
                    bytes,
                    limits,
                    depth + 1,
                ) {
                    Ok((v, n)) => Ok(DecodedRecordView::SetPublishingModeRequest(v)),
                    Err((e, n)) => Err(e),
                },
                RecordKind::UnregisterNodesResponse => match UnregisterNodesResponse::dec(
                    bytes,
                    limits,
                    depth + 1,
                ) {
                    Ok((v, n)) => Ok(DecodedRecordView::UnregisterNodesResponse(v)),
                    Err((e, n)) => Err(e),
                },
                RecordKind::WriteRequest => match WriteRequest::dec(bytes, limits, depth + 1) {
                    Ok((v, n)) => Ok(DecodedRecordView::WriteRequest(v)),
                    Err((e, n)) => Err(e),
                },
            },
            _ => Err(EncodingError::MalformedEncoding),
        }
    }
}

/// Maps numeric type identifiers to decode dispatch, one entry per
/// known structured record type.  Built once at startup, read-only
/// afterwards; lookups are hash-keyed.
pub struct TypeRegistry {
    entries: HashMap<u32, RecordKind>,
}

impl View for TypeRegistry {
    type V = Map<u32, RecordKind>;

    closed spec fn view(&self) -> Map<u32, RecordKind> {
        self.entries@
    }
}

impl TypeRegistry {
    /// An empty registry, ready for startup registration.
    pub fn new() -> (r: TypeRegistry)
        ensures
            r@ == Map::<u32, RecordKind>::empty(),
    {
        TypeRegistry { entries: HashMap::new() }
    }

    /// Registers one record kind under its identifier.  Returns false,
    /// changing nothing, when the identifier is already taken: a
    /// duplicate registration is a startup configuration error the
    /// caller must treat as fatal, never a runtime condition.
    pub fn register(&mut self, type_id: u32, kind: RecordKind) -> (r: bool)
        ensures
            r == !old(self)@.contains_key(type_id),
            r ==> final(self)@ == old(self)@.insert(type_id, kind),
            !r ==> final(self)@ == old(self)@,
    {
        if self.entries.contains_key(&type_id) {
            false
        } else {
            self.entries.insert(type_id, kind);
            true
        }
    }

    /// A registry already holding every record type this codec was
    /// generated with.
    pub fn with_defaults() -> (r: TypeRegistry)
        ensures
            r@ == Map::<u32, RecordKind>::empty().insert(
                SET_PUBLISHING_MODE_REQUEST_ID,
                RecordKind::SetPublishingModeRequest,
            ).insert(UNREGISTER_NODES_RESPONSE_ID, RecordKind::UnregisterNodesResponse).insert(
                WRITE_REQUEST_ID,
                RecordKind::WriteRequest,
            ),
    {
        let mut r = TypeRegistry::new();
        let fresh1 = r.register(SET_PUBLISHING_MODE_REQUEST_ID, RecordKind::SetPublishingModeRequest);
        let fresh2 = r.register(UNREGISTER_NODES_RESPONSE_ID, RecordKind::UnregisterNodesResponse);
        let fresh3 = r.register(WRITE_REQUEST_ID, RecordKind::WriteRequest);
        r
    }

    /// Looks an identifier up in the table.
    pub fn lookup(&self, type_id: u32) -> (r: Option<RecordKind>)
        ensures
            self@.contains_key(type_id) ==> r == Option::Some(self@[type_id]),
            !self@.contains_key(type_id) ==> r is None,
    {
        match self.entries.get(&type_id) {
            Some(kind) => Some(*kind),
            None => None,
        }
    }

    /// Whether an identifier has a registered handler.
    pub fn knows(&self, type_id: u32) -> (r: bool)
        ensures
            r == self@.contains_key(type_id),
    {
        self.entries.contains_key(&type_id)
    }

    /// Resolves a raw container into a typed record: finds the decode
    /// routine registered for the container's identifier and runs it
    /// over the binary body, one nesting level beneath the given depth,
    /// failing fast when the depth budget is spent.  Fails with
    /// `UnknownTypeIdentifier` only now, when resolution is explicitly
    /// asked for, so unknown payloads pass through a decode/encode
    /// round trip untouched.
    pub fn resolve(
        &self,
        container: &ExtensionObject,
        limits: &DecodingLimits,
        depth: usize,
    ) -> (r: Result<DecodedRecord, EncodingError>)
        ensures
            match resolve_outcome(self@, container.deep_view(), *limits, depth as int) {
                Ok(m) => r is Ok && r->Ok_0.deep_view() == m,
                Err(e) => r == Err::<DecodedRecord, EncodingError>(e),
            },
    {
        let kind = match self.entries.get(&container.type_id) {
            Some(kind) => *kind,
            None => {
                return Err(EncodingError::UnknownTypeIdentifier);
            },
        };
        if depth >= limits.max_nesting_level {
            return Err(EncodingError::LimitExceeded);
        }
        let body: &Vec<u8> = match &container.body {
            ContainerBody::Binary(bs) => match &bs.value {
                Some(bytes) => bytes,
                None => {
                    return Err(EncodingError::MalformedEncoding);
                },
            },
            _ => {
                return Err(EncodingError::MalformedEncoding);
            },
        };
        let buf = vstd::slice::slice_to_vec(body.as_slice());
        let mut source = Reader::new(buf);
        match kind {
            RecordKind::SetPublishingModeRequest => {
                let v = SetPublishingModeRequest::decode(&mut source, limits, depth + 1)?;
                Ok(DecodedRecord::SetPublishingModeRequest(v))
            },
            RecordKind::UnregisterNodesResponse => {
                let v = UnregisterNodesResponse::decode(&mut source, limits, depth + 1)?;
                Ok(DecodedRecord::UnregisterNodesResponse(v))
            },
            RecordKind::WriteRequest => {
                let v = WriteRequest::decode(&mut source, limits, depth + 1)?;
                Ok(DecodedRecord::WriteRequest(v))
            },
        }
    }
}

/// The identifier a resolved record re-encodes under.
pub open spec fn record_type_id(m: DecodedRecordView) -> u32 {
    match m {
        DecodedRecordView::SetPublishingModeRequest(_) => SET_PUBLISHING_MODE_REQUEST_ID,
        DecodedRecordView::UnregisterNodesResponse(_) => UNREGISTER_NODES_RESPONSE_ID,
        DecodedRecordView::WriteRequest(_) => WRITE_REQUEST_ID,
    }
}

/// The canonical bytes of a resolved record.
pub open spec fn record_wire(m: DecodedRecordView) -> Seq<u8> {
    match m {
        DecodedRecordView::SetPublishingModeRequest(v) => SetPublishingModeRequest::wire(v),
        DecodedRecordView::UnregisterNodesResponse(v) => UnregisterNodesResponse::wire(v),
        DecodedRecordView::WriteRequest(v) => WriteRequest::wire(v),
    }
}

/// Encodes a resolved record, dispatching on its kind.
pub fn encode_record(record: &DecodedRecord, sink: &mut Vec<u8>) -> (r: Result<
    usize,
    EncodingError,
>)
    requires
        record_wire(record.deep_view()).len() <= usize::MAX,
    ensures
        final(sink)@ == old(sink)@ + record_wire(record.deep_view()),
        r == Ok::<usize, EncodingError>(record_wire(record.deep_view()).len() as usize),
{
    match record {
        DecodedRecord::SetPublishingModeRequest(v) => v.encode(sink),
        DecodedRecord::UnregisterNodesResponse(v) => v.encode(sink),
        DecodedRecord::WriteRequest(v) => v.encode(sink),
    }
}

/// Wraps a resolved record back into a self-describing container: the
/// record's identifier, a binary body kind, and the record's canonical
/// bytes as the body.
pub fn to_extension_object(record: &DecodedRecord) -> (r: Result<ExtensionObject, EncodingError>)
    requires
        record_wire(record.deep_view()).len() <= usize::MAX,
    ensures
        r is Ok,
        r->Ok_0.deep_view() == (ExtensionObjectView {
            type_id: record_type_id(record.deep_view()),
            body: ContainerBodyView::Binary(Option::Some(record_wire(record.deep_view()))),
        }),
{
    let mut body: Vec<u8> = Vec::new();
    let written = encode_record(record, &mut body)?;
    let type_id: u32 = match record {
        DecodedRecord::SetPublishingModeRequest(_) => SET_PUBLISHING_MODE_REQUEST_ID,
        DecodedRecord::UnregisterNodesResponse(_) => UNREGISTER_NODES_RESPONSE_ID,
        DecodedRecord::WriteRequest(_) => WRITE_REQUEST_ID,
    };
    proof {
        assert(body@ =~= record_wire(record.deep_view()));
    }
    Ok(ExtensionObject::from_binary_body(type_id, body))
}

} // verus!
