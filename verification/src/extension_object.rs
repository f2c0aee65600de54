use vstd::bytes::*;
use vstd::prelude::*;
use vstd::seq_lib::lemma_seq_append_take_skip;

use crate::codec::{BinaryCodec, DecOutcome};
use crate::errors::EncodingError;
use crate::limits::DecodingLimits;
use crate::reader::Reader;
use crate::strings::ByteString;

verus! {

broadcast use vstd::seq_lib::lemma_seq_skip_of_skip;

/// The encoding-kind byte that marks a container without a body.
pub const BODY_KIND_ABSENT: u8 = 0;

/// The encoding-kind byte that marks a binary body.
pub const BODY_KIND_BINARY: u8 = 1;

/// The encoding-kind byte that marks a textual (XML) body.
pub const BODY_KIND_XML: u8 = 2;

/// What a polymorphic container carries: nothing, a binary body, or a
/// textual body.  A body travels as a length-prefixed byte string.
#[derive(Clone, Debug, PartialEq, Eq)]
pub enum ContainerBody {
    Absent,
    Binary(ByteString),
    Xml(ByteString),
}

/// The abstraction of a container body.
pub enum ContainerBodyView {
    Absent,
    Binary(Option<Seq<u8>>),
    Xml(Option<Seq<u8>>),
}

impl DeepView for ContainerBody {
    type V = ContainerBodyView;

    open spec fn deep_view(&self) -> ContainerBodyView {
        match self {
            ContainerBody::Absent => ContainerBodyView::Absent,
            ContainerBody::Binary(b) => ContainerBodyView::Binary(b.deep_view()),
            ContainerBody::Xml(b) => ContainerBodyView::Xml(b.deep_view()),
        }
    }
}

/// A self-describing envelope for a field whose concrete type is only
/// known at decode time: a numeric type identifier (0 means none), an
/// encoding-kind byte, and the raw body bytes.  Decoding keeps the body
/// raw; resolution into a concrete record happens only when the caller
/// asks the registry for it, so an identifier unknown to this codec
/// passes through unchanged.
#[derive(Clone, Debug, PartialEq, Eq)]
pub struct ExtensionObject {
    pub type_id: u32,
    pub body: ContainerBody,
}

/// The abstraction of a container.
pub struct ExtensionObjectView {
    pub type_id: u32,
    pub body: ContainerBodyView,
}

impl DeepView for ExtensionObject {
    type V = ExtensionObjectView;

    open spec fn deep_view(&self) -> ExtensionObjectView {
        ExtensionObjectView { type_id: self.type_id, body: self.body.deep_view() }
    }
}

impl ExtensionObject {
    /// The empty container: identifier 0 and no body.
    pub fn empty() -> (r: ExtensionObject)
        ensures
            r.type_id == 0,
            r.body == ContainerBody::Absent,
    {
        ExtensionObject { type_id: 0, body: ContainerBody::Absent }
    }

    /// A container holding the binary encoding of some record of the
    /// type named by `type_id`.
    pub fn from_binary_body(type_id: u32, body: Vec<u8>) -> (r: ExtensionObject)
        ensures
            r.type_id == type_id,
            r.body == ContainerBody::Binary(ByteString { value: Some(body) }),
    {
        ExtensionObject { type_id, body: ContainerBody::Binary(ByteString { value: Some(body) }) }
    }
}

/// On the wire: the identifier's four little-endian bytes; then, unless
/// the identifier is 0, the encoding-kind byte; then, for a binary or
/// textual kind, the length-prefixed body.  An identifier of 0 is the
/// whole encoding of the empty container.
impl BinaryCodec for ExtensionObject {
    open spec fn wire(m: ExtensionObjectView) -> Seq<u8> {
        spec_u32_to_le_bytes(m.type_id) + if m.type_id == 0 {
            Seq::<u8>::empty()
        } else {
            match m.body {
                ContainerBodyView::Absent => seq![BODY_KIND_ABSENT],
                ContainerBodyView::Binary(b) => seq![BODY_KIND_BINARY] + ByteString::wire(b),
                ContainerBodyView::Xml(b) => seq![BODY_KIND_XML] + ByteString::wire(b),
            }
        }
    }

    open spec fn wf(m: ExtensionObjectView, limits: DecodingLimits) -> bool {
        &&& (m.type_id == 0 ==> m.body is Absent)
        &&& match m.body {
            ContainerBodyView::Absent => true,
            ContainerBodyView::Binary(b) => ByteString::wf(b, limits),
            ContainerBodyView::Xml(b) => ByteString::wf(b, limits),
        }
    }

    open spec fn levels() -> int {
        0
    }

    open spec fn dec(s: Seq<u8>, limits: DecodingLimits, depth: int) -> DecOutcome<
        ExtensionObjectView,
    > {
        if s.len() < 4 {
            Err((EncodingError::UnexpectedEndOfStream, 0))
        } else {
            let type_id = spec_u32_from_le_bytes(s.take(4));
            if type_id == 0 {
                Ok((ExtensionObjectView { type_id: 0, body: ContainerBodyView::Absent }, 4))
            } else if s.len() < 5 {
                Err((EncodingError::UnexpectedEndOfStream, 4))
            } else {
                let kind = s[4];
                if kind == BODY_KIND_ABSENT {
                    Ok((ExtensionObjectView { type_id, body: ContainerBodyView::Absent }, 5))
                } else if kind == BODY_KIND_BINARY {
                    match ByteString::dec(s.skip(5), limits, depth) {
                        Ok((b, n)) => Ok(
                            (ExtensionObjectView { type_id, body: ContainerBodyView::Binary(b) }, 5 + n),
                        ),
                        Err((e, n)) => Err((e, 5 + n)),
                    }
                } else if kind == BODY_KIND_XML {
                    match ByteString::dec(s.skip(5), limits, depth) {
                        Ok((b, n)) => Ok(
                            (ExtensionObjectView { type_id, body: ContainerBodyView::Xml(b) }, 5 + n),
                        ),
                        Err((e, n)) => Err((e, 5 + n)),
                    }
                } else {
                    Err((EncodingError::MalformedEncoding, 5))
                }
            }
        }
    }

    proof fn lemma_dec_bounds(s: Seq<u8>, limits: DecodingLimits, depth: int) {
        if s.len() >= 5 {
            ByteString::lemma_dec_bounds(s.skip(5), limits, depth);
        }
    }

    proof fn lemma_complete(m: ExtensionObjectView, rest: Seq<u8>, limits: DecodingLimits, depth: int) {
        lemma_auto_spec_u32_to_from_le_bytes();
        let id_bytes = spec_u32_to_le_bytes(m.type_id);
        if m.type_id == 0 {
            assert(Self::wire(m) + rest =~= id_bytes + rest);
            lemma_seq_append_take_skip(id_bytes, rest, 4);
        } else {
            match m.body {
                ContainerBodyView::Absent => {
                    let s = Self::wire(m) + rest;
                    assert(s =~= id_bytes + (seq![BODY_KIND_ABSENT] + rest));
                    lemma_seq_append_take_skip(id_bytes, seq![BODY_KIND_ABSENT] + rest, 4);
                    assert(s[4] == BODY_KIND_ABSENT);
                },
                ContainerBodyView::Binary(b) => {
                    let s = Self::wire(m) + rest;
                    let tail = seq![BODY_KIND_BINARY] + (ByteString::wire(b) + rest);
                    assert(s =~= id_bytes + tail);
                    lemma_seq_append_take_skip(id_bytes, tail, 4);
                    assert(s[4] == BODY_KIND_BINARY);
                    lemma_seq_append_take_skip(
                        seq![BODY_KIND_BINARY],
                        ByteString::wire(b) + rest,
                        1,
                    );
                    assert(s.skip(4).skip(1) =~= s.skip(5));
                    ByteString::lemma_complete(b, rest, limits, depth);
                },
                ContainerBodyView::Xml(b) => {
                    let s = Self::wire(m) + rest;
                    let tail = seq![BODY_KIND_XML] + (ByteString::wire(b) + rest);
                    assert(s =~= id_bytes + tail);
                    lemma_seq_append_take_skip(id_bytes, tail, 4);
                    assert(s[4] == BODY_KIND_XML);
                    lemma_seq_append_take_skip(seq![BODY_KIND_XML], ByteString::wire(b) + rest, 1);
                    assert(s.skip(4).skip(1) =~= s.skip(5));
                    ByteString::lemma_complete(b, rest, limits, depth);
                },
            }
        }
    }

    fn byte_len(&self) -> (r: usize) {
        proof {
            lemma_auto_spec_u32_to_from_le_bytes();
        }
        if self.type_id == 0 {
            4
        } else {
            match &self.body {
                ContainerBody::Absent => 5,
                ContainerBody::Binary(b) => 5 + b.byte_len(),
                ContainerBody::Xml(b) => 5 + b.byte_len(),
            }
        }
    }

    fn encode(&self, sink: &mut Vec<u8>) -> (r: Result<usize, EncodingError>) {
        proof {
            lemma_auto_spec_u32_to_from_le_bytes();
        }
        let mut id_bytes = u32_to_le_bytes(self.type_id);
        sink.append(&mut id_bytes);
        if self.type_id == 0 {
            proof {
                assert(sink@ =~= old(sink)@ + Self::wire(self.deep_view()));
            }
            Ok(4)
        } else {
            match &self.body {
                ContainerBody::Absent => {
                    sink.push(BODY_KIND_ABSENT);
                    proof {
                        assert(sink@ =~= old(sink)@ + Self::wire(self.deep_view()));
                    }
                    Ok(5)
                },
                ContainerBody::Binary(b) => {
                    sink.push(BODY_KIND_BINARY);
                    let body_len = b.encode(sink)?;
                    proof {
                        assert(sink@ =~= old(sink)@ + Self::wire(self.deep_view()));
                    }
                    Ok(5 + body_len)
                },
                ContainerBody::Xml(b) => {
                    sink.push(BODY_KIND_XML);
                    let body_len = b.encode(sink)?;
                    proof {
                        assert(sink@ =~= old(sink)@ + Self::wire(self.deep_view()));
                    }
                    Ok(5 + body_len)
                },
            }
        }
    }

    fn decode(source: &mut Reader, limits: &DecodingLimits, depth: usize) -> (r: Result<
        ExtensionObject,
        EncodingError,
    >) {
        let ghost pre = *source;
        let id_bytes = source.take_bytes(4)?;
        let type_id = u32_from_le_bytes(id_bytes.as_slice());
        if type_id == 0 {
            return Ok(ExtensionObject { type_id: 0, body: ContainerBody::Absent });
        }
        let kind_bytes = source.take_bytes(1)?;
        let kind = kind_bytes[0];
        proof {
            assert(pre.remaining()[4] == kind);
            assert(source.remaining() =~= pre.remaining().skip(5));
        }
        if kind == BODY_KIND_ABSENT {
            Ok(ExtensionObject { type_id, body: ContainerBody::Absent })
        } else if kind == BODY_KIND_BINARY {
            let b = ByteString::decode(source, limits, depth)?;
            Ok(ExtensionObject { type_id, body: ContainerBody::Binary(b) })
        } else if kind == BODY_KIND_XML {
            let b = ByteString::decode(source, limits, depth)?;
            Ok(ExtensionObject { type_id, body: ContainerBody::Xml(b) })
        } else {
            Err(EncodingError::MalformedEncoding)
        }
    }
}

} // verus!
