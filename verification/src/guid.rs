use vstd::prelude::*;

use crate::codec::{BinaryCodec, DecOutcome};
use crate::errors::EncodingError;
use crate::limits::DecodingLimits;
use crate::reader::Reader;

verus! {

broadcast use vstd::seq_lib::lemma_seq_skip_of_skip;

/// A 16-byte globally unique identifier: a 4-byte, two 2-byte and one
/// 8-byte group.  The scalar groups travel little-endian, the last group
/// as raw bytes.  A well-formed value's last group holds exactly eight
/// bytes.
#[derive(Clone, Debug, PartialEq, Eq)]
pub struct Guid {
    pub data1: u32,
    pub data2: u16,
    pub data3: u16,
    pub data4: Vec<u8>,
}

/// The abstraction of a GUID.
pub struct GuidView {
    pub data1: u32,
    pub data2: u16,
    pub data3: u16,
    pub data4: Seq<u8>,
}

impl DeepView for Guid {
    type V = GuidView;

    open spec fn deep_view(&self) -> GuidView {
        GuidView { data1: self.data1, data2: self.data2, data3: self.data3, data4: self.data4@ }
    }
}

impl BinaryCodec for Guid {
    open spec fn wire(m: GuidView) -> Seq<u8> {
        <u32 as BinaryCodec>::wire(m.data1) + (<u16 as BinaryCodec>::wire(m.data2) + (<
        u16 as BinaryCodec>::wire(m.data3) + m.data4))
    }

    open spec fn wf(m: GuidView, limits: DecodingLimits) -> bool {
        m.data4.len() == 8
    }

    open spec fn levels() -> int {
        0
    }

    open spec fn dec(s: Seq<u8>, limits: DecodingLimits, depth: int) -> DecOutcome<GuidView> {
        match <u32 as BinaryCodec>::dec(s, limits, depth) {
            Err((e, n)) => Err((e, n)),
            Ok((data1, n1)) => match <u16 as BinaryCodec>::dec(s.skip(n1), limits, depth) {
                Err((e, n)) => Err((e, n1 + n)),
                Ok((data2, n2)) => match <u16 as BinaryCodec>::dec(s.skip(n1 + n2), limits, depth) {
                    Err((e, n)) => Err((e, n1 + n2 + n)),
                    Ok((data3, n3)) => if s.len() - (n1 + n2 + n3) < 8 {
                        Err((EncodingError::UnexpectedEndOfStream, n1 + n2 + n3))
                    } else {
                        Ok(
                            (
                                GuidView {
                                    data1,
                                    data2,
                                    data3,
                                    data4: s.skip(n1 + n2 + n3).take(8),
                                },
                                n1 + n2 + n3 + 8,
                            ),
                        )
                    },
                },
            },
        }
    }

    proof fn lemma_dec_bounds(s: Seq<u8>, limits: DecodingLimits, depth: int) {
        <u32 as BinaryCodec>::lemma_dec_bounds(s, limits, depth);
        if let Ok((_, n1)) = <u32 as BinaryCodec>::dec(s, limits, depth) {
            <u16 as BinaryCodec>::lemma_dec_bounds(s.skip(n1), limits, depth);
            if let Ok((_, n2)) = <u16 as BinaryCodec>::dec(s.skip(n1), limits, depth) {
                assert(s.skip(n1).skip(n2) =~= s.skip(n1 + n2));
                <u16 as BinaryCodec>::lemma_dec_bounds(s.skip(n1 + n2), limits, depth);
            }
        }
    }

    #[verifier::spinoff_prover]
    #[verifier::rlimit(50)]
    proof fn lemma_complete(m: GuidView, rest: Seq<u8>, limits: DecodingLimits, depth: int) {
        let w1 = <u32 as BinaryCodec>::wire(m.data1);
        let w2 = <u16 as BinaryCodec>::wire(m.data2);
        let w3 = <u16 as BinaryCodec>::wire(m.data3);
        let t3 = m.data4 + rest;
        let t2 = w3 + t3;
        let t1 = w2 + t2;
        let s = Self::wire(m) + rest;
        assert(s =~= w1 + t1);
        <u32 as BinaryCodec>::lemma_complete(m.data1, t1, limits, depth);
        assert(s.skip(w1.len() as int) =~= t1);
        <u16 as BinaryCodec>::lemma_complete(m.data2, t2, limits, depth);
        assert(s.skip((w1.len() + w2.len()) as int) =~= t2);
        <u16 as BinaryCodec>::lemma_complete(m.data3, t3, limits, depth);
        assert(s.skip((w1.len() + w2.len() + w3.len()) as int) =~= t3);
        assert(t3.take(8) =~= m.data4);
        assert(m == GuidView { data1: m.data1, data2: m.data2, data3: m.data3, data4: m.data4 });
    }

    fn byte_len(&self) -> (r: usize) {
        let mut size: usize = self.data1.byte_len();
        size = size + self.data2.byte_len();
        size = size + self.data3.byte_len();
        size = size + self.data4.len();
        size
    }

    fn encode(&self, sink: &mut Vec<u8>) -> (r: Result<usize, EncodingError>) {
        let mut size: usize = self.data1.encode(sink)?;
        size = size + self.data2.encode(sink)?;
        size = size + self.data3.encode(sink)?;
        let mut tail = vstd::slice::slice_to_vec(self.data4.as_slice());
        sink.append(&mut tail);
        proof {
            assert(sink@ =~= old(sink)@ + Self::wire(self.deep_view()));
        }
        Ok(size + self.data4.len())
    }

    fn decode(source: &mut Reader, limits: &DecodingLimits, depth: usize) -> (r: Result<
        Guid,
        EncodingError,
    >) {
        let ghost pre = *source;
        let ghost s = pre.remaining();
        let ghost dd = depth as int;
        let ghost p1 = *source;
        let data1 = <u32 as BinaryCodec>::decode(source, limits, depth)?;
        proof {
            <u32 as BinaryCodec>::lemma_dec_bounds(p1.remaining(), *limits, dd);
            assert(source.remaining() =~= s.skip(source.pos - pre.pos));
        }
        let ghost p2 = *source;
        let data2 = <u16 as BinaryCodec>::decode(source, limits, depth)?;
        proof {
            <u16 as BinaryCodec>::lemma_dec_bounds(p2.remaining(), *limits, dd);
            assert(source.remaining() =~= s.skip(source.pos - pre.pos));
        }
        let ghost p3 = *source;
        let data3 = <u16 as BinaryCodec>::decode(source, limits, depth)?;
        proof {
            <u16 as BinaryCodec>::lemma_dec_bounds(p3.remaining(), *limits, dd);
            assert(source.remaining() =~= s.skip(source.pos - pre.pos));
        }
        let data4 = source.take_bytes(8)?;
        Ok(Guid { data1, data2, data3, data4 })
    }
}

} // verus!
