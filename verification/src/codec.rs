use vstd::prelude::*;

use crate::errors::EncodingError;
use crate::limits::DecodingLimits;
use crate::reader::Reader;

verus! {

/// The verdict of a spec-level decode: the decoded mathematical value and
/// the number of bytes consumed, or the error and the number of bytes
/// consumed up to the point of failure.
pub type DecOutcome<M> = Result<(M, int), (EncodingError, int)>;

/// The uniform capability every structured record and field type
/// implements: compute the serialized size, write the canonical
/// little-endian bytes, and read them back in the same fixed order.
///
/// The mathematical wire format of a type is fixed by two spec functions:
/// `wire` maps the abstraction (`DeepView`) of a value to its exact byte
/// sequence, and `dec` maps a byte sequence, the decode limits and the
/// current nesting depth to the decoded abstraction and consumed length,
/// or to the error at which decoding stops.  The executable `encode` and
/// `decode` are proved to follow them exactly, and `lemma_complete`
/// establishes that decoding an encoded value yields the value back.
pub trait BinaryCodec: DeepView + Sized {
    /// The canonical encoding of an abstract value.
    spec fn wire(m: Self::V) -> Seq<u8>;

    /// Whether an abstract value stays within the decode limits, so that
    /// its own encoding decodes back to it.
    spec fn wf(m: Self::V, limits: DecodingLimits) -> bool;

    /// How many nesting levels a decode of this type consumes.
    spec fn levels() -> int;

    /// The spec-level decoder: what any decode of this type returns on
    /// the byte sequence `s` at nesting depth `depth`.
    spec fn dec(s: Seq<u8>, limits: DecodingLimits, depth: int) -> DecOutcome<Self::V>;

    /// A decode never consumes more bytes than it was given, whether it
    /// succeeds or fails.
    proof fn lemma_dec_bounds(s: Seq<u8>, limits: DecodingLimits, depth: int)
        ensures
            match Self::dec(s, limits, depth) {
                Ok((m, n)) => 0 <= n <= s.len(),
                Err((e, n)) => 0 <= n <= s.len(),
            },
    ;

    /// Decoding is total left inverse of encoding: a stream that starts
    /// with the encoding of a within-limits value decodes to that value,
    /// consuming exactly its encoding.
    proof fn lemma_complete(m: Self::V, rest: Seq<u8>, limits: DecodingLimits, depth: int)
        requires
            Self::wf(m, limits),
            0 <= depth,
            depth + Self::levels() <= limits.max_nesting_level,
        ensures
            Self::dec(Self::wire(m) + rest, limits, depth)
                == Ok::<(Self::V, int), (EncodingError, int)>((m, Self::wire(m).len() as int)),
    ;

    /// The exact serialized size, with no I/O.
    fn byte_len(&self) -> (r: usize)
        requires
            Self::wire(self.deep_view()).len() <= usize::MAX,
        ensures
            r == Self::wire(self.deep_view()).len(),
    ;

    /// Appends the canonical bytes of `self` to `sink` and returns the
    /// number of bytes written.  Writing to an in-memory sink never fails.
    fn encode(&self, sink: &mut Vec<u8>) -> (r: Result<usize, EncodingError>)
        requires
            Self::wire(self.deep_view()).len() <= usize::MAX,
        ensures
            final(sink)@ == old(sink)@ + Self::wire(self.deep_view()),
            r == Ok::<usize, EncodingError>(Self::wire(self.deep_view()).len() as usize),
    ;

    /// Consumes one value of this type from the source, at nesting depth
    /// `depth`, exactly as the spec decoder `dec` prescribes.
    fn decode(source: &mut Reader, limits: &DecodingLimits, depth: usize) -> (r: Result<
        Self,
        EncodingError,
    >)
        requires
            old(source).wf(),
        ensures
            decode_post::<Self>(
                *old(source),
                *final(source),
                Self::dec(old(source).remaining(), *limits, depth as int),
                r,
            ),
    ;
}

/// What an executable decode guarantees: the buffer is untouched, the
/// cursor moves by exactly the consumed length the spec decoder gives
/// (`outcome` is its verdict on the unconsumed bytes), and the result
/// mirrors that verdict.
pub open spec fn decode_post<T: DeepView>(
    pre: Reader,
    post: Reader,
    outcome: DecOutcome<T::V>,
    r: Result<T, EncodingError>,
) -> bool {
    &&& post.wf()
    &&& post.buf@ == pre.buf@
    &&& match outcome {
        Ok((m, n)) => r is Ok && r->Ok_0.deep_view() == m && post.pos == pre.pos + n,
        Err((e, n)) => r is Err && r->Err_0 == e && post.pos == pre.pos + n,
    }
}

/// Round trip: decoding the encoding of any within-limits value, at any
/// depth the value's nesting fits under, yields the value back and
/// consumes the whole encoding.
pub proof fn lemma_round_trip<T: BinaryCodec>(m: T::V, limits: DecodingLimits, depth: int)
    requires
        T::wf(m, limits),
        0 <= depth,
        depth + T::levels() <= limits.max_nesting_level,
    ensures
        T::dec(T::wire(m), limits, depth)
            == Ok::<(T::V, int), (EncodingError, int)>((m, T::wire(m).len() as int)),
{
    T::lemma_complete(m, Seq::empty(), limits, depth);
    assert(T::wire(m) + Seq::<u8>::empty() =~= T::wire(m));
}

/// Encodes a complete message: the canonical bytes of `value` alone,
/// ready for the transport to frame.
pub fn encode_message<T: BinaryCodec>(value: &T) -> (r: Result<Vec<u8>, EncodingError>)
    requires
        T::wire(value.deep_view()).len() <= usize::MAX,
    ensures
        r is Ok,
        r->Ok_0@ == T::wire(value.deep_view()),
{
    let mut sink: Vec<u8> = Vec::new();
    let written = value.encode(&mut sink)?;
    proof {
        assert(sink@ =~= T::wire(value.deep_view()));
    }
    Ok(sink)
}

/// Decodes a complete message buffer as a value of type `T`, first
/// holding the buffer itself to `limits.max_message_size`, then decoding
/// from its start at nesting depth zero.
pub fn decode_message<T: BinaryCodec>(buf: Vec<u8>, limits: &DecodingLimits) -> (r: Result<
    T,
    EncodingError,
>)
    ensures
        buf@.len() > limits.max_message_size ==> r == Err::<T, EncodingError>(
            EncodingError::LimitExceeded,
        ),
        buf@.len() <= limits.max_message_size ==> match T::dec(buf@, *limits, 0) {
            Ok((m, n)) => r is Ok && r->Ok_0.deep_view() == m,
            Err((e, n)) => r == Err::<T, EncodingError>(e),
        },
{
    if buf.len() > limits.max_message_size {
        return Err(EncodingError::LimitExceeded);
    }
    let mut source = Reader::new(buf);
    T::decode(&mut source, limits, 0)
}

} // verus!
