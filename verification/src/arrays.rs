use vstd::bytes::*;
use vstd::prelude::*;
use vstd::seq_lib::lemma_seq_append_take_skip;

use crate::codec::{BinaryCodec, DecOutcome};
use crate::errors::EncodingError;
use crate::limits::DecodingLimits;
use crate::reader::Reader;
use crate::strings::{ABSENT_LENGTH, MAX_DECLARED_LENGTH};

verus! {

broadcast use vstd::seq_lib::lemma_seq_skip_of_skip;

/// The concatenated encodings of the elements, in order.
pub open spec fn wire_elems<T: BinaryCodec>(vs: Seq<T::V>) -> Seq<u8>
    decreases vs.len(),
{
    if vs.len() == 0 {
        Seq::empty()
    } else {
        T::wire(vs[0]) + wire_elems::<T>(vs.skip(1))
    }
}

/// The spec-level decoder for `count` consecutive elements: the decoded
/// element sequence and consumed length, or the first element failure
/// with the bytes consumed up to it.
pub open spec fn dec_elems<T: BinaryCodec>(
    s: Seq<u8>,
    limits: DecodingLimits,
    depth: int,
    count: int,
) -> DecOutcome<Seq<T::V>>
    decreases count,
{
    if count <= 0 {
        Ok((Seq::empty(), 0))
    } else {
        match T::dec(s, limits, depth) {
            Ok((v, n)) => match dec_elems::<T>(s.skip(n), limits, depth, count - 1) {
                Ok((vs, n2)) => Ok((seq![v] + vs, n + n2)),
                Err((e, n2)) => Err((e, n + n2)),
            },
            Err((e, n)) => Err((e, n)),
        }
    }
}

/// Element decoding consumes at most the given bytes, and on success
/// yields exactly `count` elements.
pub proof fn lemma_dec_elems_bounds<T: BinaryCodec>(
    s: Seq<u8>,
    limits: DecodingLimits,
    depth: int,
    count: int,
)
    ensures
        match dec_elems::<T>(s, limits, depth, count) {
            Ok((vs, n)) => 0 <= n <= s.len() && (count >= 0 ==> vs.len() == count),
            Err((e, n)) => 0 <= n <= s.len(),
        },
    decreases count,
{
    if count > 0 {
        T::lemma_dec_bounds(s, limits, depth);
        match T::dec(s, limits, depth) {
            Ok((v, n)) => {
                lemma_dec_elems_bounds::<T>(s.skip(n), limits, depth, count - 1);
            },
            Err((e, n)) => {},
        }
    }
}

/// Extending a successful element decode by one more element.
pub proof fn lemma_dec_elems_extend<T: BinaryCodec>(
    s: Seq<u8>,
    limits: DecodingLimits,
    depth: int,
    i: int,
)
    requires
        0 <= i,
        dec_elems::<T>(s, limits, depth, i) is Ok,
    ensures
        ({
            let (vs, n) = dec_elems::<T>(s, limits, depth, i)->Ok_0;
            match T::dec(s.skip(n), limits, depth) {
                Ok((v, n2)) => dec_elems::<T>(s, limits, depth, i + 1) == Ok::<
                    (Seq<T::V>, int),
                    (EncodingError, int),
                >((vs.push(v), n + n2)),
                Err((e, n2)) => dec_elems::<T>(s, limits, depth, i + 1) == Err::<
                    (Seq<T::V>, int),
                    (EncodingError, int),
                >((e, n + n2)),
            }
        }),
    decreases i,
{
    let (vs, n) = dec_elems::<T>(s, limits, depth, i)->Ok_0;
    if i == 0 {
        assert(s.skip(0) =~= s);
        match T::dec(s, limits, depth) {
            Ok((v, n2)) => {
                assert(dec_elems::<T>(s.skip(n2), limits, depth, 0) == Ok::<
                    (Seq<T::V>, int),
                    (EncodingError, int),
                >((Seq::empty(), 0)));
                assert(seq![v] + Seq::<T::V>::empty() =~= Seq::<T::V>::empty().push(v));
            },
            Err((e, n2)) => {},
        }
    } else {
        let (v0, m0) = T::dec(s, limits, depth)->Ok_0;
        T::lemma_dec_bounds(s, limits, depth);
        lemma_dec_elems_bounds::<T>(s.skip(m0), limits, depth, i - 1);
        let (vs1, n1) = dec_elems::<T>(s.skip(m0), limits, depth, i - 1)->Ok_0;
        lemma_dec_elems_extend::<T>(s.skip(m0), limits, depth, i - 1);
        assert(s.skip(m0).skip(n1) =~= s.skip(m0 + n1));
        match T::dec(s.skip(n), limits, depth) {
            Ok((v, n2)) => {
                assert(seq![v0] + vs1.push(v) =~= (seq![v0] + vs1).push(v));
            },
            Err((e, n2)) => {},
        }
    }
}

/// Once an element fails, every larger requested count fails the same
/// way, at the same position.
pub proof fn lemma_dec_elems_error<T: BinaryCodec>(
    s: Seq<u8>,
    limits: DecodingLimits,
    depth: int,
    i: int,
    count: int,
)
    requires
        0 <= i < count,
        dec_elems::<T>(s, limits, depth, i) is Ok,
        ({
            let (vs, n) = dec_elems::<T>(s, limits, depth, i)->Ok_0;
            T::dec(s.skip(n), limits, depth) is Err
        }),
    ensures
        ({
            let (vs, n) = dec_elems::<T>(s, limits, depth, i)->Ok_0;
            let (e, m) = T::dec(s.skip(n), limits, depth)->Err_0;
            dec_elems::<T>(s, limits, depth, count) == Err::<(Seq<T::V>, int), (
                EncodingError,
                int,
            )>((e, n + m))
        }),
    decreases i,
{
    let (vs, n) = dec_elems::<T>(s, limits, depth, i)->Ok_0;
    if i == 0 {
        assert(s.skip(0) =~= s);
    } else {
        let (v0, m0) = T::dec(s, limits, depth)->Ok_0;
        T::lemma_dec_bounds(s, limits, depth);
        lemma_dec_elems_bounds::<T>(s.skip(m0), limits, depth, i - 1);
        let (vs1, n1) = dec_elems::<T>(s.skip(m0), limits, depth, i - 1)->Ok_0;
        assert(s.skip(m0).skip(n1) =~= s.skip(m0 + n1));
        lemma_dec_elems_error::<T>(s.skip(m0), limits, depth, i - 1, count - 1);
    }
}

/// Appending one element to a sequence appends its encoding.
pub proof fn lemma_wire_elems_push<T: BinaryCodec>(vs: Seq<T::V>, v: T::V)
    ensures
        wire_elems::<T>(vs.push(v)) == wire_elems::<T>(vs) + T::wire(v),
    decreases vs.len(),
{
    if vs.len() == 0 {
        assert(vs.push(v).skip(1) =~= Seq::<T::V>::empty());
        assert(vs.push(v)[0] == v);
        assert(wire_elems::<T>(vs.push(v)) == T::wire(v) + wire_elems::<T>(
            Seq::<T::V>::empty(),
        ));
        assert(T::wire(v) + Seq::<u8>::empty() =~= Seq::<u8>::empty() + T::wire(v));
    } else {
        lemma_wire_elems_push::<T>(vs.skip(1), v);
        assert(vs.push(v).skip(1) =~= vs.skip(1).push(v));
        assert(vs.push(v)[0] == vs[0]);
        assert(T::wire(vs[0]) + (wire_elems::<T>(vs.skip(1)) + T::wire(v)) =~= (T::wire(vs[0])
            + wire_elems::<T>(vs.skip(1))) + T::wire(v));
    }
}

/// The encodings of a prefix and the matching suffix make up the whole.
pub proof fn lemma_wire_elems_split<T: BinaryCodec>(vs: Seq<T::V>, i: int)
    requires
        0 <= i <= vs.len(),
    ensures
        wire_elems::<T>(vs) == wire_elems::<T>(vs.take(i)) + wire_elems::<T>(vs.skip(i)),
    decreases i,
{
    if i == 0 {
        assert(vs.take(0) =~= Seq::<T::V>::empty());
        assert(vs.skip(0) =~= vs);
        assert(wire_elems::<T>(vs) =~= wire_elems::<T>(vs.take(0)) + wire_elems::<T>(vs.skip(0)));
    } else {
        lemma_wire_elems_split::<T>(vs.skip(1), i - 1);
        assert(vs.take(i)[0] == vs[0]);
        assert(vs.take(i).skip(1) =~= vs.skip(1).take(i - 1));
        assert(vs.skip(1).skip(i - 1) =~= vs.skip(i));
        assert((T::wire(vs[0]) + wire_elems::<T>(vs.skip(1).take(i - 1))) + wire_elems::<T>(
            vs.skip(i),
        ) =~= T::wire(vs[0]) + (wire_elems::<T>(vs.skip(1).take(i - 1)) + wire_elems::<T>(
            vs.skip(i),
        )));
    }
}

/// Decoding the concatenated encodings of within-limits elements yields
/// them all back.
pub proof fn lemma_wire_elems_complete<T: BinaryCodec>(
    vs: Seq<T::V>,
    rest: Seq<u8>,
    limits: DecodingLimits,
    depth: int,
)
    requires
        forall|i: int| 0 <= i < vs.len() ==> T::wf(#[trigger] vs[i], limits),
        0 <= depth,
        depth + T::levels() <= limits.max_nesting_level,
    ensures
        dec_elems::<T>(wire_elems::<T>(vs) + rest, limits, depth, vs.len() as int)
            == Ok::<(Seq<T::V>, int), (EncodingError, int)>((
            vs,
            wire_elems::<T>(vs).len() as int,
        )),
    decreases vs.len(),
{
    if vs.len() == 0 {
        assert(wire_elems::<T>(vs) =~= Seq::<u8>::empty());
        assert(dec_elems::<T>(wire_elems::<T>(vs) + rest, limits, depth, 0) == Ok::<
            (Seq<T::V>, int),
            (EncodingError, int),
        >((Seq::empty(), 0)));
        assert(vs =~= Seq::<T::V>::empty());
    } else {
        let w0 = T::wire(vs[0]);
        let wrest = wire_elems::<T>(vs.skip(1));
        let s = wire_elems::<T>(vs) + rest;
        assert(s =~= w0 + (wrest + rest));
        T::lemma_complete(vs[0], wrest + rest, limits, depth);
        lemma_seq_append_take_skip(w0, wrest + rest, w0.len() as int);
        lemma_wire_elems_complete::<T>(vs.skip(1), rest, limits, depth);
        assert(seq![vs[0]] + vs.skip(1) =~= vs);
    }
}

/// Optional arrays follow the tri-state length convention: absent
/// (length -1), empty (length 0), or a count followed by each element's
/// encoding in order.  A declared count beyond
/// `limits.max_array_length` is rejected before any element is read or
/// any storage allocated.
impl<T: BinaryCodec> BinaryCodec for Option<Vec<T>> {
    open spec fn wire(m: Option<Seq<T::V>>) -> Seq<u8> {
        match m {
            Option::None => spec_u32_to_le_bytes(ABSENT_LENGTH),
            Option::Some(vs) => spec_u32_to_le_bytes(#[verifier::truncate] (vs.len() as u32))
                + wire_elems::<T>(vs),
        }
    }

    open spec fn wf(m: Option<Seq<T::V>>, limits: DecodingLimits) -> bool {
        m matches Option::Some(vs) ==> {
            &&& vs.len() <= limits.max_array_length
            &&& vs.len() <= MAX_DECLARED_LENGTH
            &&& forall|i: int| 0 <= i < vs.len() ==> T::wf(#[trigger] vs[i], limits)
        }
    }

    open spec fn levels() -> int {
        T::levels()
    }

    open spec fn dec(s: Seq<u8>, limits: DecodingLimits, depth: int) -> DecOutcome<
        Option<Seq<T::V>>,
    > {
        if s.len() < 4 {
            Err((EncodingError::UnexpectedEndOfStream, 0))
        } else {
            let declared = spec_u32_from_le_bytes(s.take(4));
            if declared == ABSENT_LENGTH {
                Ok((Option::None, 4))
            } else if declared > MAX_DECLARED_LENGTH {
                Err((EncodingError::InvalidLength, 4))
            } else if declared > limits.max_array_length {
                Err((EncodingError::LimitExceeded, 4))
            } else {
                match dec_elems::<T>(s.skip(4), limits, depth, declared as int) {
                    Ok((vs, n)) => Ok((Option::Some(vs), 4 + n)),
                    Err((e, n)) => Err((e, 4 + n)),
                }
            }
        }
    }

    proof fn lemma_dec_bounds(s: Seq<u8>, limits: DecodingLimits, depth: int) {
        if s.len() >= 4 {
            let declared = spec_u32_from_le_bytes(s.take(4));
            lemma_dec_elems_bounds::<T>(s.skip(4), limits, depth, declared as int);
        }
    }

    proof fn lemma_complete(m: Option<Seq<T::V>>, rest: Seq<u8>, limits: DecodingLimits, depth: int) {
        lemma_auto_spec_u32_to_from_le_bytes();
        match m {
            Option::None => {
                lemma_seq_append_take_skip(Self::wire(m), rest, 4);
            },
            Option::Some(vs) => {
                let declared = #[verifier::truncate] (vs.len() as u32);
                let prefix = spec_u32_to_le_bytes(declared);
                let body = wire_elems::<T>(vs);
                assert(Self::wire(m) + rest =~= prefix + (body + rest));
                lemma_seq_append_take_skip(prefix, body + rest, 4);
                lemma_wire_elems_complete::<T>(vs, rest, limits, depth);
            },
        }
    }

    fn byte_len(&self) -> (r: usize) {
        proof {
            lemma_auto_spec_u32_to_from_le_bytes();
        }
        match self {
            None => 4,
            Some(items) => {
                let ghost vs = items.deep_view();
                let mut size: usize = 4;
                let mut i: usize = 0;
                proof {
                    assert(vs.take(0) =~= Seq::<T::V>::empty());
                }
                while i < items.len()
                    invariant
                        i <= items.len(),
                        vs == items.deep_view(),
                        size == 4 + wire_elems::<T>(vs.take(i as int)).len(),
                        4 + wire_elems::<T>(vs).len() <= usize::MAX,
                    decreases items.len() - i,
                {
                    proof {
                        lemma_wire_elems_split::<T>(vs, i as int);
                        assert(vs.skip(i as int)[0] == vs[i as int]);
                        assert(vs.skip(i as int).skip(1) =~= vs.skip(i + 1));
                        lemma_wire_elems_split::<T>(vs, i + 1);
                        assert(vs.take(i as int).push(vs[i as int]) =~= vs.take(i + 1));
                        lemma_wire_elems_push::<T>(vs.take(i as int), vs[i as int]);
                        assert(items[i as int].deep_view() == vs[i as int]);
                    }
                    let elem_len = items[i].byte_len();
                    size = size + elem_len;
                    i += 1;
                }
                proof {
                    assert(vs.take(items@.len() as int) =~= vs);
                }
                size
            },
        }
    }

    fn encode(&self, sink: &mut Vec<u8>) -> (r: Result<usize, EncodingError>) {
        proof {
            lemma_auto_spec_u32_to_from_le_bytes();
        }
        match self {
            None => {
                let mut bytes = u32_to_le_bytes(ABSENT_LENGTH);
                sink.append(&mut bytes);
                Ok(4)
            },
            Some(items) => {
                let ghost vs = items.deep_view();
                let ghost sink0 = sink@;
                let declared: u32 = #[verifier::truncate] (items.len() as u32);
                let mut bytes = u32_to_le_bytes(declared);
                sink.append(&mut bytes);
                let mut size: usize = 4;
                let mut i: usize = 0;
                proof {
                    assert(vs.take(0) =~= Seq::<T::V>::empty());
                    assert(sink@ =~= sink0 + spec_u32_to_le_bytes(declared) + wire_elems::<T>(
                        vs.take(0),
                    ));
                }
                while i < items.len()
                    invariant
                        i <= items.len(),
                        vs == items.deep_view(),
                        size == 4 + wire_elems::<T>(vs.take(i as int)).len(),
                        4 + wire_elems::<T>(vs).len() <= usize::MAX,
                        sink@ == sink0 + spec_u32_to_le_bytes(declared) + wire_elems::<T>(
                            vs.take(i as int),
                        ),
                    decreases items.len() - i,
                {
                    proof {
                        lemma_wire_elems_split::<T>(vs, i as int);
                        assert(vs.skip(i as int)[0] == vs[i as int]);
                        assert(vs.skip(i as int).skip(1) =~= vs.skip(i + 1));
                        lemma_wire_elems_split::<T>(vs, i + 1);
                        assert(vs.take(i as int).push(vs[i as int]) =~= vs.take(i + 1));
                        lemma_wire_elems_push::<T>(vs.take(i as int), vs[i as int]);
                        assert(items[i as int].deep_view() == vs[i as int]);
                    }
                    let written = match items[i].encode(sink) {
                        Ok(w) => w,
                        Err(e) => {
                            proof {
                                assert(false);
                            }
                            return Err(e);
                        },
                    };
                    proof {
                        assert(sink@ =~= sink0 + spec_u32_to_le_bytes(declared) + wire_elems::<T>(
                            vs.take(i + 1),
                        ));
                    }
                    size = size + written;
                    i += 1;
                }
                proof {
                    assert(vs.take(items@.len() as int) =~= vs);
                    assert(sink@ =~= old(sink)@ + Self::wire(self.deep_view()));
                }
                Ok(size)
            },
        }
    }

    #[verifier::loop_isolation(false)]
    fn decode(source: &mut Reader, limits: &DecodingLimits, depth: usize) -> (r: Result<
        Option<Vec<T>>,
        EncodingError,
    >) {
        let ghost pre = *source;
        let len_bytes = source.take_bytes(4)?;
        let declared = u32_from_le_bytes(len_bytes.as_slice());
        if declared == ABSENT_LENGTH {
            return Ok(None);
        }
        if declared > MAX_DECLARED_LENGTH {
            return Err(EncodingError::InvalidLength);
        }
        if declared as usize > limits.max_array_length {
            return Err(EncodingError::LimitExceeded);
        }
        let count = declared as usize;
        let ghost body = pre.remaining().skip(4);
        let ghost start_pos = source.pos as int;
        let mut items: Vec<T> = Vec::with_capacity(count);
        let mut i: usize = 0;
        proof {
        }
        while i < count
            invariant
                pre == *old(source),
                source.wf(),
                source.buf@ == pre.buf@,
                pre.wf(),
                start_pos == pre.pos + 4,
                body == pre.remaining().skip(4),
                i <= count,
                dec_elems::<T>(body, *limits, depth as int, i as int) matches Ok((vs, n))
                    && vs == items.deep_view() && source.pos == start_pos + n,
            decreases count - i,
        {
            let ghost (vs_g, n_g) = dec_elems::<T>(body, *limits, depth as int, i as int)->Ok_0;
            proof {
                lemma_dec_elems_bounds::<T>(body, *limits, depth as int, i as int);
                assert(source.remaining() =~= body.skip(n_g));
                lemma_dec_elems_extend::<T>(body, *limits, depth as int, i as int);
            }
            match T::decode(source, limits, depth) {
                Ok(v) => {
                    items.push(v);
                    proof {
                        assert(items.deep_view() =~= vs_g.push(v.deep_view()));
                    }
                },
                Err(e) => {
                    proof {
                        lemma_dec_elems_error::<T>(
                            body,
                            *limits,
                            depth as int,
                            i as int,
                            count as int,
                        );
                    }
                    return Err(e);
                },
            }
            i += 1;
        }
        Ok(Some(items))
    }
}

/// The serialized size of an optional array: a 4-byte length field plus
/// each element's own size.
pub fn byte_len_array<T: BinaryCodec>(values: &Option<Vec<T>>) -> (r: usize)
    requires
        <Option<Vec<T>> as BinaryCodec>::wire(values.deep_view()).len() <= usize::MAX,
    ensures
        r == <Option<Vec<T>> as BinaryCodec>::wire(values.deep_view()).len(),
{
    values.byte_len()
}

/// Writes an optional array: the length field (-1 when absent, else the
/// count), then each element in order.
pub fn write_array<T: BinaryCodec>(sink: &mut Vec<u8>, values: &Option<Vec<T>>) -> (r: Result<
    usize,
    EncodingError,
>)
    requires
        <Option<Vec<T>> as BinaryCodec>::wire(values.deep_view()).len() <= usize::MAX,
    ensures
        final(sink)@ == old(sink)@ + <Option<Vec<T>> as BinaryCodec>::wire(values.deep_view()),
        r == Ok::<usize, EncodingError>(
            <Option<Vec<T>> as BinaryCodec>::wire(values.deep_view()).len() as usize,
        ),
{
    values.encode(sink)
}

/// Reads an optional array: -1 yields absence, any other negative length
/// is invalid, a count beyond `limits.max_array_length` is rejected
/// before allocation, and otherwise the elements are decoded one at a
/// time, stopping at the first failure.
pub fn read_array<T: BinaryCodec>(source: &mut Reader, limits: &DecodingLimits, depth: usize) -> (r:
    Result<Option<Vec<T>>, EncodingError>)
    requires
        old(source).wf(),
    ensures
        crate::codec::decode_post::<Option<Vec<T>>>(
            *old(source),
            *final(source),
            <Option<Vec<T>> as BinaryCodec>::dec(old(source).remaining(), *limits, depth as int),
            r,
        ),
{
    <Option<Vec<T>> as BinaryCodec>::decode(source, limits, depth)
}

/// Absent is not empty: the encoding of an absent array and of a
/// present-but-empty array differ on the wire (length -1 against 0),
/// and each decodes back to exactly what it was.
pub proof fn lemma_array_absent_vs_empty<T: BinaryCodec>(limits: DecodingLimits, depth: int)
    requires
        0 <= depth,
        depth + T::levels() <= limits.max_nesting_level,
    ensures
        <Option<Vec<T>> as BinaryCodec>::wire(Option::None) != <Option<Vec<T>> as BinaryCodec>::wire(
            Option::Some(Seq::empty()),
        ),
        <Option<Vec<T>> as BinaryCodec>::dec(
            <Option<Vec<T>> as BinaryCodec>::wire(Option::None),
            limits,
            depth,
        ) == Ok::<(Option<Seq<T::V>>, int), (EncodingError, int)>((Option::None, 4)),
        <Option<Vec<T>> as BinaryCodec>::dec(
            <Option<Vec<T>> as BinaryCodec>::wire(Option::Some(Seq::empty())),
            limits,
            depth,
        ) == Ok::<(Option<Seq<T::V>>, int), (EncodingError, int)>((
            Option::Some(Seq::empty()),
            4,
        )),
{
    lemma_auto_spec_u32_to_from_le_bytes();
    let wn = <Option<Vec<T>> as BinaryCodec>::wire(Option::None);
    let we = <Option<Vec<T>> as BinaryCodec>::wire(Option::Some(Seq::empty()));
    assert(wire_elems::<T>(Seq::empty()) =~= Seq::<u8>::empty());
    assert(we =~= spec_u32_to_le_bytes(0));
    if wn == we {
        assert(spec_u32_from_le_bytes(wn) == ABSENT_LENGTH);
        assert(spec_u32_from_le_bytes(we) == 0);
    }
    crate::codec::lemma_round_trip::<Option<Vec<T>>>(Option::None, limits, depth);
    crate::codec::lemma_round_trip::<Option<Vec<T>>>(Option::Some(Seq::empty()), limits, depth);
    assert(wn.len() == 4 && we.len() == 4);
}

} // verus!
