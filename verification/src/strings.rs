use vstd::bytes::*;
use vstd::prelude::*;
use vstd::seq_lib::lemma_seq_append_take_skip;

use crate::codec::{BinaryCodec, DecOutcome};
use crate::errors::EncodingError;
use crate::limits::DecodingLimits;
use crate::reader::Reader;

verus! {

broadcast use vstd::seq_lib::lemma_seq_skip_of_skip;

/// The length field that marks an absent string, byte string or array:
/// the two's-complement bytes of -1.
pub const ABSENT_LENGTH: u32 = 0xFFFF_FFFF;

/// The largest length a 4-byte signed length field can declare.
pub const MAX_DECLARED_LENGTH: u32 = 0x7FFF_FFFF;

/// A string or byte string with the tri-state length convention: absent
/// (length -1 on the wire), present but empty (length 0), or populated
/// (length n followed by the bytes).  UTF-8 strings travel as their
/// bytes; absent is distinct from empty.
#[derive(Clone, Debug, PartialEq, Eq)]
pub struct ByteString {
    pub value: Option<Vec<u8>>,
}

impl DeepView for ByteString {
    type V = Option<Seq<u8>>;

    open spec fn deep_view(&self) -> Option<Seq<u8>> {
        match self.value {
            Option::None => Option::None,
            Option::Some(v) => Option::Some(v@),
        }
    }
}

impl ByteString {
    /// The absent string (length -1 on the wire).
    pub fn absent() -> (r: ByteString)
        ensures
            r.deep_view() == Option::<Seq<u8>>::None,
    {
        ByteString { value: None }
    }

    /// A present string holding the given bytes.
    pub fn from_bytes(bytes: Vec<u8>) -> (r: ByteString)
        ensures
            r.deep_view() == Option::Some(bytes@),
    {
        ByteString { value: Some(bytes) }
    }

    /// Whether the string is present (possibly empty).
    pub fn is_present(&self) -> (r: bool)
        ensures
            r == (self.deep_view() is Some),
    {
        self.value.is_some()
    }
}

impl BinaryCodec for ByteString {
    open spec fn wire(m: Option<Seq<u8>>) -> Seq<u8> {
        match m {
            Option::None => spec_u32_to_le_bytes(ABSENT_LENGTH),
            Option::Some(b) => spec_u32_to_le_bytes(#[verifier::truncate] (b.len() as u32)) + b,
        }
    }

    open spec fn wf(m: Option<Seq<u8>>, limits: DecodingLimits) -> bool {
        m matches Option::Some(b) ==> b.len() <= limits.max_string_length && b.len()
            <= MAX_DECLARED_LENGTH
    }

    open spec fn levels() -> int {
        0
    }

    open spec fn dec(s: Seq<u8>, limits: DecodingLimits, depth: int) -> DecOutcome<
        Option<Seq<u8>>,
    > {
        if s.len() < 4 {
            Err((EncodingError::UnexpectedEndOfStream, 0))
        } else {
            let declared = spec_u32_from_le_bytes(s.take(4));
            if declared == ABSENT_LENGTH {
                Ok((Option::None, 4))
            } else if declared > MAX_DECLARED_LENGTH {
                Err((EncodingError::InvalidLength, 4))
            } else if declared > limits.max_string_length {
                Err((EncodingError::LimitExceeded, 4))
            } else if s.len() - 4 < declared {
                Err((EncodingError::UnexpectedEndOfStream, 4))
            } else {
                Ok((Option::Some(s.skip(4).take(declared as int)), 4 + declared))
            }
        }
    }

    proof fn lemma_dec_bounds(s: Seq<u8>, limits: DecodingLimits, depth: int) {
    }

    proof fn lemma_complete(m: Option<Seq<u8>>, rest: Seq<u8>, limits: DecodingLimits, depth: int) {
        lemma_auto_spec_u32_to_from_le_bytes();
        match m {
            Option::None => {
                lemma_seq_append_take_skip(Self::wire(m), rest, 4);
            },
            Option::Some(b) => {
                let declared = #[verifier::truncate] (b.len() as u32);
                let prefix = spec_u32_to_le_bytes(declared);
                assert(Self::wire(m) + rest =~= prefix + (b + rest));
                lemma_seq_append_take_skip(prefix, b + rest, 4);
                lemma_seq_append_take_skip(b, rest, b.len() as int);
            },
        }
    }

    fn byte_len(&self) -> (r: usize) {
        proof {
            lemma_auto_spec_u32_to_from_le_bytes();
        }
        match &self.value {
            None => 4,
            Some(b) => 4 + b.len(),
        }
    }

    fn encode(&self, sink: &mut Vec<u8>) -> (r: Result<usize, EncodingError>) {
        proof {
            lemma_auto_spec_u32_to_from_le_bytes();
        }
        match &self.value {
            None => {
                let mut bytes = u32_to_le_bytes(ABSENT_LENGTH);
                sink.append(&mut bytes);
                Ok(4)
            },
            Some(b) => {
                let declared: u32 = #[verifier::truncate] (b.len() as u32);
                let mut bytes = u32_to_le_bytes(declared);
                sink.append(&mut bytes);
                let mut body = vstd::slice::slice_to_vec(b.as_slice());
                sink.append(&mut body);
                proof {
                    assert(sink@ =~= old(sink)@ + Self::wire(self.deep_view()));
                }
                Ok(4 + b.len())
            },
        }
    }

    fn decode(source: &mut Reader, limits: &DecodingLimits, depth: usize) -> (r: Result<
        ByteString,
        EncodingError,
    >) {
        let len_bytes = source.take_bytes(4)?;
        let declared = u32_from_le_bytes(len_bytes.as_slice());
        if declared == ABSENT_LENGTH {
            return Ok(ByteString { value: None });
        }
        if declared > MAX_DECLARED_LENGTH {
            return Err(EncodingError::InvalidLength);
        }
        if declared as usize > limits.max_string_length {
            return Err(EncodingError::LimitExceeded);
        }
        let body = source.take_bytes(declared as usize)?;
        Ok(ByteString { value: Some(body) })
    }
}

/// Absent is not empty: the encoding of an absent string and of a
/// present-but-empty string differ on the wire (length -1 against 0),
/// and each decodes back to exactly what it was.
pub proof fn lemma_string_absent_vs_empty(limits: DecodingLimits, depth: int)
    ensures
        ByteString::wire(Option::None) != ByteString::wire(Option::Some(Seq::empty())),
        ByteString::dec(ByteString::wire(Option::None), limits, depth) == Ok::<
            (Option<Seq<u8>>, int),
            (EncodingError, int),
        >((Option::None, 4)),
        ByteString::dec(ByteString::wire(Option::Some(Seq::empty())), limits, depth) == Ok::<
            (Option<Seq<u8>>, int),
            (EncodingError, int),
        >((Option::Some(Seq::empty()), 4)),
{
    lemma_auto_spec_u32_to_from_le_bytes();
    let wn = ByteString::wire(Option::None);
    let we = ByteString::wire(Option::Some(Seq::empty()));
    assert(we =~= spec_u32_to_le_bytes(0));
    if wn == we {
        assert(spec_u32_from_le_bytes(wn) == ABSENT_LENGTH);
        assert(spec_u32_from_le_bytes(we) == 0);
    }
    assert(wn.take(4) =~= wn);
    assert(we.take(4) =~= we);
    assert(we.skip(4).take(0) =~= Seq::<u8>::empty());
}

} // verus!
