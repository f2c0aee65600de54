use vstd::bytes::*;
use vstd::prelude::*;
use vstd::seq_lib::lemma_seq_append_take_skip;

use crate::codec::{BinaryCodec, DecOutcome};
use crate::errors::EncodingError;
use crate::limits::DecodingLimits;
use crate::reader::Reader;

verus! {

/// The three severity classes carried by the top two bits of a status
/// code: `00` is good, `01` is uncertain, and a set top bit is bad.
#[derive(Clone, Copy, Debug, PartialEq, Eq, Structural)]
pub enum Severity {
    Good,
    Uncertain,
    Bad,
}

/// A packed 32-bit result/severity/quality code.  Classification and
/// decomposition are pure bit-level predicates on the packed value.
#[derive(Clone, Copy, Debug, PartialEq, Eq, Structural)]
pub struct StatusCode {
    pub bits: u32,
}

impl DeepView for StatusCode {
    type V = StatusCode;

    open spec fn deep_view(&self) -> StatusCode {
        *self
    }
}

impl StatusCode {
    /// The severity encoded in the top two bits.
    pub open spec fn spec_severity(self) -> Severity {
        if self.bits >> 30 == 0 {
            Severity::Good
        } else if self.bits >> 30 == 1 {
            Severity::Uncertain
        } else {
            Severity::Bad
        }
    }

    /// The sub-code: the twelve bits beneath the severity and reserved
    /// bits.
    pub open spec fn spec_sub_code(self) -> u32 {
        (self.bits >> 16) & 0xFFF
    }

    /// Wraps a packed 32-bit value.
    pub fn new(bits: u32) -> (r: StatusCode)
        ensures
            r.bits == bits,
    {
        StatusCode { bits }
    }

    /// The all-clear code: severity good, sub-code zero, no flags.
    pub fn good() -> (r: StatusCode)
        ensures
            r.bits == 0,
            r.spec_severity() == Severity::Good,
    {
        proof {
            assert(0u32 >> 30 == 0) by (bit_vector);
        }
        StatusCode { bits: 0 }
    }

    /// Packs a severity and a sub-code into a status code.
    pub fn from_parts(severity: Severity, sub_code: u32) -> (r: StatusCode)
        requires
            sub_code <= 0xFFF,
        ensures
            r.spec_severity() == severity,
            r.spec_sub_code() == sub_code,
    {
        let high: u32 = match severity {
            Severity::Good => 0x0000_0000,
            Severity::Uncertain => 0x4000_0000,
            Severity::Bad => 0x8000_0000,
        };
        let bits: u32 = high | (sub_code << 16);
        proof {
            assert((high == 0x0000_0000u32 || high == 0x4000_0000u32 || high == 0x8000_0000u32)
                && sub_code <= 0xFFF ==> ((high | (sub_code << 16)) >> 30 == high >> 30 && ((high
                | (sub_code << 16)) >> 16) & 0xFFF == sub_code)) by (bit_vector);
            assert(0x0000_0000u32 >> 30 == 0 && 0x4000_0000u32 >> 30 == 1 && 0x8000_0000u32 >> 30
                == 2) by (bit_vector);
        }
        StatusCode { bits }
    }

    /// Classifies the code by its top two bits.
    pub fn severity(&self) -> (r: Severity)
        ensures
            r == self.spec_severity(),
    {
        let top: u32 = self.bits >> 30;
        if top == 0 {
            Severity::Good
        } else if top == 1 {
            Severity::Uncertain
        } else {
            Severity::Bad
        }
    }

    /// Whether the severity is good.
    pub fn is_good(&self) -> (r: bool)
        ensures
            r == (self.spec_severity() is Good),
    {
        self.bits >> 30 == 0
    }

    /// Whether the severity is bad.
    pub fn is_bad(&self) -> (r: bool)
        ensures
            r == (self.spec_severity() is Bad),
    {
        self.bits >> 30 >= 2
    }

    /// Whether the severity is uncertain.
    pub fn is_uncertain(&self) -> (r: bool)
        ensures
            r == (self.spec_severity() is Uncertain),
    {
        self.bits >> 30 == 1
    }

    /// Extracts the sub-code bits.
    pub fn sub_code(&self) -> (r: u32)
        ensures
            r == self.spec_sub_code(),
    {
        (self.bits >> 16) & 0xFFF
    }

    /// Whether the structure-changed diagnostic flag bit is set.
    pub fn structure_changed(&self) -> (r: bool)
        ensures
            r == (self.bits & 0x8000 != 0),
    {
        self.bits & 0x8000 != 0
    }

    /// Whether the semantics-changed diagnostic flag bit is set.
    pub fn semantics_changed(&self) -> (r: bool)
        ensures
            r == (self.bits & 0x4000 != 0),
    {
        self.bits & 0x4000 != 0
    }
}

/// A status code travels as the four little-endian bytes of its packed
/// value, like any other 4-byte scalar.
impl BinaryCodec for StatusCode {
    open spec fn wire(m: StatusCode) -> Seq<u8> {
        spec_u32_to_le_bytes(m.bits)
    }

    open spec fn wf(m: StatusCode, limits: DecodingLimits) -> bool {
        true
    }

    open spec fn levels() -> int {
        0
    }

    open spec fn dec(s: Seq<u8>, limits: DecodingLimits, depth: int) -> DecOutcome<StatusCode> {
        if s.len() < 4 {
            Err((EncodingError::UnexpectedEndOfStream, 0))
        } else {
            Ok((StatusCode { bits: spec_u32_from_le_bytes(s.take(4)) }, 4))
        }
    }

    proof fn lemma_dec_bounds(s: Seq<u8>, limits: DecodingLimits, depth: int) {
    }

    proof fn lemma_complete(m: StatusCode, rest: Seq<u8>, limits: DecodingLimits, depth: int) {
        lemma_auto_spec_u32_to_from_le_bytes();
        lemma_seq_append_take_skip(Self::wire(m), rest, 4);
    }

    fn byte_len(&self) -> (r: usize) {
        proof {
            lemma_auto_spec_u32_to_from_le_bytes();
        }
        4
    }

    fn encode(&self, sink: &mut Vec<u8>) -> (r: Result<usize, EncodingError>) {
        proof {
            lemma_auto_spec_u32_to_from_le_bytes();
        }
        let mut bytes = u32_to_le_bytes(self.bits);
        sink.append(&mut bytes);
        Ok(4)
    }

    fn decode(source: &mut Reader, limits: &DecodingLimits, depth: usize) -> (r: Result<
        StatusCode,
        EncodingError,
    >) {
        let bytes = source.take_bytes(4)?;
        let bits = u32_from_le_bytes(bytes.as_slice());
        Ok(StatusCode { bits })
    }
}

} // verus!
