use vstd::prelude::*;

use crate::errors::EncodingError;

verus! {

/// A byte source for decoding: a complete buffer plus a cursor.
///
/// The transport layer hands the codec a complete byte buffer; decode
/// operations consume it from the front.  The buffer itself is never
/// modified, only the cursor advances.
pub struct Reader {
    pub buf: Vec<u8>,
    pub pos: usize,
}

impl Reader {
    /// The cursor never runs past the end of the buffer.
    pub open spec fn wf(self) -> bool {
        self.pos <= self.buf@.len()
    }

    /// The bytes not yet consumed.
    pub open spec fn remaining(self) -> Seq<u8> {
        self.buf@.skip(self.pos as int)
    }

    /// Wraps a complete buffer, with the cursor at its start.
    pub fn new(buf: Vec<u8>) -> (r: Reader)
        ensures
            r.wf(),
            r.buf@ == buf@,
            r.pos == 0,
            r.remaining() == buf@,
    {
        let r = Reader { buf, pos: 0 };
        proof {
            assert(r.remaining() =~= r.buf@);
        }
        r
    }

    /// How many bytes are left to consume.
    pub fn remaining_len(&self) -> (r: usize)
        requires
            self.wf(),
        ensures
            r == self.remaining().len(),
    {
        self.buf.len() - self.pos
    }

    /// Consumes the next `n` bytes, or fails without consuming anything
    /// when fewer than `n` remain.
    pub fn take_bytes(&mut self, n: usize) -> (r: Result<Vec<u8>, EncodingError>)
        requires
            old(self).wf(),
        ensures
            final(self).wf(),
            final(self).buf@ == old(self).buf@,
            n <= old(self).remaining().len() ==> {
                &&& r is Ok
                &&& r->Ok_0@ == old(self).remaining().take(n as int)
                &&& final(self).pos == old(self).pos + n
            },
            n > old(self).remaining().len() ==> {
                &&& r == Err::<Vec<u8>, EncodingError>(EncodingError::UnexpectedEndOfStream)
                &&& final(self).pos == old(self).pos
            },
    {
        if n > self.buf.len() - self.pos {
            return Err(EncodingError::UnexpectedEndOfStream);
        }
        let mut out: Vec<u8> = Vec::new();
        let mut i: usize = 0;
        while i < n
            invariant
                self == old(self),
                self.wf(),
                i <= n,
                n <= self.buf@.len() - self.pos,
                self.pos + n <= usize::MAX,
                out@ == self.buf@.subrange(self.pos as int, self.pos + i),
            decreases n - i,
        {
            out.push(self.buf[self.pos + i]);
            i += 1;
            proof {
                assert(out@ =~= self.buf@.subrange(self.pos as int, self.pos + i));
            }
        }
        proof {
            assert(out@ =~= old(self).remaining().take(n as int));
        }
        self.pos = self.pos + n;
        Ok(out)
    }
}

} // verus!
