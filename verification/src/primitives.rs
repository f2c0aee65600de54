use vstd::bytes::*;
use vstd::prelude::*;
use vstd::seq_lib::lemma_seq_append_take_skip;

use crate::codec::{BinaryCodec, DecOutcome};
use crate::errors::EncodingError;
use crate::limits::DecodingLimits;
use crate::reader::Reader;

verus! {

// Fixed-width scalars encode as their little-endian bytes; decoding them
// consumes exactly that many bytes and fails only when the stream ends
// early.  Scalars are not subject to the decode limits and consume no
// nesting level.  Signed integers share the bytes of their unsigned
// reinterpretation.
impl BinaryCodec for bool {
    open spec fn wire(m: bool) -> Seq<u8> {
        seq![if m { 1u8 } else { 0u8 }]
    }

    open spec fn wf(m: bool, limits: DecodingLimits) -> bool {
        true
    }

    open spec fn levels() -> int {
        0
    }

    open spec fn dec(s: Seq<u8>, limits: DecodingLimits, depth: int) -> DecOutcome<bool> {
        if s.len() < 1 {
            Err((EncodingError::UnexpectedEndOfStream, 0))
        } else {
            Ok((s[0] != 0, 1))
        }
    }

    proof fn lemma_dec_bounds(s: Seq<u8>, limits: DecodingLimits, depth: int) {
    }

    proof fn lemma_complete(m: bool, rest: Seq<u8>, limits: DecodingLimits, depth: int) {
    }

    fn byte_len(&self) -> (r: usize) {
        1
    }

    fn encode(&self, sink: &mut Vec<u8>) -> (r: Result<usize, EncodingError>) {
        sink.push(if *self {
            1u8
        } else {
            0u8
        });
        proof {
            assert(sink@ =~= old(sink)@ + Self::wire(*self));
        }
        Ok(1)
    }

    fn decode(source: &mut Reader, limits: &DecodingLimits, depth: usize) -> (r: Result<
        bool,
        EncodingError,
    >) {
        let bytes = source.take_bytes(1)?;
        let b = bytes[0];
        Ok(b != 0)
    }
}

impl BinaryCodec for u8 {
    open spec fn wire(m: u8) -> Seq<u8> {
        seq![m]
    }

    open spec fn wf(m: u8, limits: DecodingLimits) -> bool {
        true
    }

    open spec fn levels() -> int {
        0
    }

    open spec fn dec(s: Seq<u8>, limits: DecodingLimits, depth: int) -> DecOutcome<u8> {
        if s.len() < 1 {
            Err((EncodingError::UnexpectedEndOfStream, 0))
        } else {
            Ok((s[0], 1))
        }
    }

    proof fn lemma_dec_bounds(s: Seq<u8>, limits: DecodingLimits, depth: int) {
    }

    proof fn lemma_complete(m: u8, rest: Seq<u8>, limits: DecodingLimits, depth: int) {
    }

    fn byte_len(&self) -> (r: usize) {
        1
    }

    fn encode(&self, sink: &mut Vec<u8>) -> (r: Result<usize, EncodingError>) {
        sink.push(*self);
        proof {
            assert(sink@ =~= old(sink)@ + Self::wire(*self));
        }
        Ok(1)
    }

    fn decode(source: &mut Reader, limits: &DecodingLimits, depth: usize) -> (r: Result<
        u8,
        EncodingError,
    >) {
        let bytes = source.take_bytes(1)?;
        Ok(bytes[0])
    }
}

impl BinaryCodec for i8 {
    open spec fn wire(m: i8) -> Seq<u8> {
        seq![(#[verifier::truncate] (m as u8))]
    }

    open spec fn wf(m: i8, limits: DecodingLimits) -> bool {
        true
    }

    open spec fn levels() -> int {
        0
    }

    open spec fn dec(s: Seq<u8>, limits: DecodingLimits, depth: int) -> DecOutcome<i8> {
        if s.len() < 1 {
            Err((EncodingError::UnexpectedEndOfStream, 0))
        } else {
            Ok(((#[verifier::truncate] (s[0] as i8)), 1))
        }
    }

    proof fn lemma_dec_bounds(s: Seq<u8>, limits: DecodingLimits, depth: int) {
    }

    proof fn lemma_complete(m: i8, rest: Seq<u8>, limits: DecodingLimits, depth: int) {
        assert((#[verifier::truncate] ((#[verifier::truncate] (m as u8)) as i8)) == m)
            by (bit_vector);
    }

    fn byte_len(&self) -> (r: usize) {
        1
    }

    fn encode(&self, sink: &mut Vec<u8>) -> (r: Result<usize, EncodingError>) {
        sink.push(#[verifier::truncate] (*self as u8));
        proof {
            assert(sink@ =~= old(sink)@ + Self::wire(*self));
        }
        Ok(1)
    }

    fn decode(source: &mut Reader, limits: &DecodingLimits, depth: usize) -> (r: Result<
        i8,
        EncodingError,
    >) {
        let bytes = source.take_bytes(1)?;
        let b = bytes[0];
        Ok(#[verifier::truncate] (b as i8))
    }
}

impl BinaryCodec for u16 {
    open spec fn wire(m: u16) -> Seq<u8> {
        spec_u16_to_le_bytes(m)
    }

    open spec fn wf(m: u16, limits: DecodingLimits) -> bool {
        true
    }

    open spec fn levels() -> int {
        0
    }

    open spec fn dec(s: Seq<u8>, limits: DecodingLimits, depth: int) -> DecOutcome<u16> {
        if s.len() < 2 {
            Err((EncodingError::UnexpectedEndOfStream, 0))
        } else {
            Ok((spec_u16_from_le_bytes(s.take(2)), 2))
        }
    }

    proof fn lemma_dec_bounds(s: Seq<u8>, limits: DecodingLimits, depth: int) {
    }

    proof fn lemma_complete(m: u16, rest: Seq<u8>, limits: DecodingLimits, depth: int) {
        lemma_auto_spec_u16_to_from_le_bytes();
        lemma_seq_append_take_skip(Self::wire(m), rest, 2);
    }

    fn byte_len(&self) -> (r: usize) {
        proof {
            lemma_auto_spec_u16_to_from_le_bytes();
        }
        2
    }

    fn encode(&self, sink: &mut Vec<u8>) -> (r: Result<usize, EncodingError>) {
        proof {
            lemma_auto_spec_u16_to_from_le_bytes();
        }
        let mut bytes = u16_to_le_bytes(*self);
        sink.append(&mut bytes);
        Ok(2)
    }

    fn decode(source: &mut Reader, limits: &DecodingLimits, depth: usize) -> (r: Result<
        u16,
        EncodingError,
    >) {
        let bytes = source.take_bytes(2)?;
        let x = u16_from_le_bytes(bytes.as_slice());
        Ok(x)
    }
}

impl BinaryCodec for i16 {
    open spec fn wire(m: i16) -> Seq<u8> {
        spec_u16_to_le_bytes(#[verifier::truncate] (m as u16))
    }

    open spec fn wf(m: i16, limits: DecodingLimits) -> bool {
        true
    }

    open spec fn levels() -> int {
        0
    }

    open spec fn dec(s: Seq<u8>, limits: DecodingLimits, depth: int) -> DecOutcome<i16> {
        if s.len() < 2 {
            Err((EncodingError::UnexpectedEndOfStream, 0))
        } else {
            Ok(((#[verifier::truncate] (spec_u16_from_le_bytes(s.take(2)) as i16)), 2))
        }
    }

    proof fn lemma_dec_bounds(s: Seq<u8>, limits: DecodingLimits, depth: int) {
    }

    proof fn lemma_complete(m: i16, rest: Seq<u8>, limits: DecodingLimits, depth: int) {
        lemma_auto_spec_u16_to_from_le_bytes();
        lemma_seq_append_take_skip(Self::wire(m), rest, 2);
        assert((#[verifier::truncate] ((#[verifier::truncate] (m as u16)) as i16)) == m)
            by (bit_vector);
    }

    fn byte_len(&self) -> (r: usize) {
        proof {
            lemma_auto_spec_u16_to_from_le_bytes();
        }
        2
    }

    fn encode(&self, sink: &mut Vec<u8>) -> (r: Result<usize, EncodingError>) {
        proof {
            lemma_auto_spec_u16_to_from_le_bytes();
        }
        let mut bytes = u16_to_le_bytes(#[verifier::truncate] (*self as u16));
        sink.append(&mut bytes);
        Ok(2)
    }

    fn decode(source: &mut Reader, limits: &DecodingLimits, depth: usize) -> (r: Result<
        i16,
        EncodingError,
    >) {
        let bytes = source.take_bytes(2)?;
        let x = u16_from_le_bytes(bytes.as_slice());
        Ok(#[verifier::truncate] (x as i16))
    }
}

impl BinaryCodec for u32 {
    open spec fn wire(m: u32) -> Seq<u8> {
        spec_u32_to_le_bytes(m)
    }

    open spec fn wf(m: u32, limits: DecodingLimits) -> bool {
        true
    }

    open spec fn levels() -> int {
        0
    }

    open spec fn dec(s: Seq<u8>, limits: DecodingLimits, depth: int) -> DecOutcome<u32> {
        if s.len() < 4 {
            Err((EncodingError::UnexpectedEndOfStream, 0))
        } else {
            Ok((spec_u32_from_le_bytes(s.take(4)), 4))
        }
    }

    proof fn lemma_dec_bounds(s: Seq<u8>, limits: DecodingLimits, depth: int) {
    }

    proof fn lemma_complete(m: u32, rest: Seq<u8>, limits: DecodingLimits, depth: int) {
        lemma_auto_spec_u32_to_from_le_bytes();
        lemma_seq_append_take_skip(Self::wire(m), rest, 4);
    }

    fn byte_len(&self) -> (r: usize) {
        proof {
            lemma_auto_spec_u32_to_from_le_bytes();
        }
        4
    }

    fn encode(&self, sink: &mut Vec<u8>) -> (r: Result<usize, EncodingError>) {
        proof {
            lemma_auto_spec_u32_to_from_le_bytes();
        }
        let mut bytes = u32_to_le_bytes(*self);
        sink.append(&mut bytes);
        Ok(4)
    }

    fn decode(source: &mut Reader, limits: &DecodingLimits, depth: usize) -> (r: Result<
        u32,
        EncodingError,
    >) {
        let bytes = source.take_bytes(4)?;
        let x = u32_from_le_bytes(bytes.as_slice());
        Ok(x)
    }
}

impl BinaryCodec for i32 {
    open spec fn wire(m: i32) -> Seq<u8> {
        spec_u32_to_le_bytes(#[verifier::truncate] (m as u32))
    }

    open spec fn wf(m: i32, limits: DecodingLimits) -> bool {
        true
    }

    open spec fn levels() -> int {
        0
    }

    open spec fn dec(s: Seq<u8>, limits: DecodingLimits, depth: int) -> DecOutcome<i32> {
        if s.len() < 4 {
            Err((EncodingError::UnexpectedEndOfStream, 0))
        } else {
            Ok(((#[verifier::truncate] (spec_u32_from_le_bytes(s.take(4)) as i32)), 4))
        }
    }

    proof fn lemma_dec_bounds(s: Seq<u8>, limits: DecodingLimits, depth: int) {
    }

    proof fn lemma_complete(m: i32, rest: Seq<u8>, limits: DecodingLimits, depth: int) {
        lemma_auto_spec_u32_to_from_le_bytes();
        lemma_seq_append_take_skip(Self::wire(m), rest, 4);
        assert((#[verifier::truncate] ((#[verifier::truncate] (m as u32)) as i32)) == m)
            by (bit_vector);
    }

    fn byte_len(&self) -> (r: usize) {
        proof {
            lemma_auto_spec_u32_to_from_le_bytes();
        }
        4
    }

    fn encode(&self, sink: &mut Vec<u8>) -> (r: Result<usize, EncodingError>) {
        proof {
            lemma_auto_spec_u32_to_from_le_bytes();
        }
        let mut bytes = u32_to_le_bytes(#[verifier::truncate] (*self as u32));
        sink.append(&mut bytes);
        Ok(4)
    }

    fn decode(source: &mut Reader, limits: &DecodingLimits, depth: usize) -> (r: Result<
        i32,
        EncodingError,
    >) {
        let bytes = source.take_bytes(4)?;
        let x = u32_from_le_bytes(bytes.as_slice());
        Ok(#[verifier::truncate] (x as i32))
    }
}

impl BinaryCodec for u64 {
    open spec fn wire(m: u64) -> Seq<u8> {
        spec_u64_to_le_bytes(m)
    }

    open spec fn wf(m: u64, limits: DecodingLimits) -> bool {
        true
    }

    open spec fn levels() -> int {
        0
    }

    open spec fn dec(s: Seq<u8>, limits: DecodingLimits, depth: int) -> DecOutcome<u64> {
        if s.len() < 8 {
            Err((EncodingError::UnexpectedEndOfStream, 0))
        } else {
            Ok((spec_u64_from_le_bytes(s.take(8)), 8))
        }
    }

    proof fn lemma_dec_bounds(s: Seq<u8>, limits: DecodingLimits, depth: int) {
    }

    proof fn lemma_complete(m: u64, rest: Seq<u8>, limits: DecodingLimits, depth: int) {
        lemma_auto_spec_u64_to_from_le_bytes();
        lemma_seq_append_take_skip(Self::wire(m), rest, 8);
    }

    fn byte_len(&self) -> (r: usize) {
        proof {
            lemma_auto_spec_u64_to_from_le_bytes();
        }
        8
    }

    fn encode(&self, sink: &mut Vec<u8>) -> (r: Result<usize, EncodingError>) {
        proof {
            lemma_auto_spec_u64_to_from_le_bytes();
        }
        let mut bytes = u64_to_le_bytes(*self);
        sink.append(&mut bytes);
        Ok(8)
    }

    fn decode(source: &mut Reader, limits: &DecodingLimits, depth: usize) -> (r: Result<
        u64,
        EncodingError,
    >) {
        let bytes = source.take_bytes(8)?;
        let x = u64_from_le_bytes(bytes.as_slice());
        Ok(x)
    }
}

impl BinaryCodec for i64 {
    open spec fn wire(m: i64) -> Seq<u8> {
        spec_u64_to_le_bytes(#[verifier::truncate] (m as u64))
    }

    open spec fn wf(m: i64, limits: DecodingLimits) -> bool {
        true
    }

    open spec fn levels() -> int {
        0
    }

    open spec fn dec(s: Seq<u8>, limits: DecodingLimits, depth: int) -> DecOutcome<i64> {
        if s.len() < 8 {
            Err((EncodingError::UnexpectedEndOfStream, 0))
        } else {
            Ok(((#[verifier::truncate] (spec_u64_from_le_bytes(s.take(8)) as i64)), 8))
        }
    }

    proof fn lemma_dec_bounds(s: Seq<u8>, limits: DecodingLimits, depth: int) {
    }

    proof fn lemma_complete(m: i64, rest: Seq<u8>, limits: DecodingLimits, depth: int) {
        lemma_auto_spec_u64_to_from_le_bytes();
        lemma_seq_append_take_skip(Self::wire(m), rest, 8);
        assert((#[verifier::truncate] ((#[verifier::truncate] (m as u64)) as i64)) == m)
            by (bit_vector);
    }

    fn byte_len(&self) -> (r: usize) {
        proof {
            lemma_auto_spec_u64_to_from_le_bytes();
        }
        8
    }

    fn encode(&self, sink: &mut Vec<u8>) -> (r: Result<usize, EncodingError>) {
        proof {
            lemma_auto_spec_u64_to_from_le_bytes();
        }
        let mut bytes = u64_to_le_bytes(#[verifier::truncate] (*self as u64));
        sink.append(&mut bytes);
        Ok(8)
    }

    fn decode(source: &mut Reader, limits: &DecodingLimits, depth: usize) -> (r: Result<
        i64,
        EncodingError,
    >) {
        let bytes = source.take_bytes(8)?;
        let x = u64_from_le_bytes(bytes.as_slice());
        Ok(#[verifier::truncate] (x as i64))
    }
}

} // verus!
