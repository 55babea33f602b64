//! In-memory byte streams: the input source the machine reads from and the
//! output sink it writes to.

use vstd::prelude::*;

verus! {

/// An input source: a buffer of bytes handed out one at a time.
#[derive(Debug)]
pub struct InputStream {
    /// The bytes the source was created with.
    pub bytes: Vec<u8>,
    /// How many of them have been consumed already.
    pub pos: usize,
}

impl InputStream {
    /// The cursor never runs past the end of the buffer.
    pub open spec fn inv(&self) -> bool {
        self.pos <= self.bytes@.len()
    }

    /// The bytes not yet consumed.
    pub open spec fn remaining(&self) -> Seq<u8> {
        self.bytes@.skip(self.pos as int)
    }

    /// A source that will yield the given bytes in order.
    pub fn new(bytes: Vec<u8>) -> (s: Self)
        ensures
            s.inv(),
            s.bytes@ == bytes@,
            s.pos == 0,
            s.remaining() == bytes@,
    {
        let s = InputStream { bytes, pos: 0 };
        proof {
            assert(s.remaining() =~= s.bytes@);
        }
        s
    }

    /// Yields the next byte, or nothing once the buffer is exhausted.
    pub fn next_byte(&mut self) -> (r: Option<u8>)
        requires
            old(self).inv(),
        ensures
            final(self).inv(),
            final(self).bytes@ == old(self).bytes@,
            old(self).remaining().len() == 0 ==> r is None && *final(self) == *old(self),
            old(self).remaining().len() > 0 ==> r == Some(old(self).remaining()[0])
                && final(self).remaining() == old(self).remaining().skip(1),
    {
        if self.pos < self.bytes.len() {
            let b = self.bytes[self.pos];
            self.pos = self.pos + 1;
            proof {
                assert(self.remaining() =~= old(self).remaining().skip(1));
            }
            Some(b)
        } else {
            None
        }
    }
}

/// An output sink: accepts bytes and keeps them in order.
#[derive(Debug)]
pub struct OutputStream {
    /// Everything written so far, oldest first.
    pub bytes: Vec<u8>,
}

impl OutputStream {
    /// A sink that has received nothing yet.
    pub fn new() -> (s: Self)
        ensures
            s.bytes@ == Seq::<u8>::empty(),
    {
        OutputStream { bytes: Vec::new() }
    }

    /// Accepts one byte.
    pub fn push_byte(&mut self, b: u8)
        ensures
            final(self).bytes@ == old(self).bytes@.push(b),
    {
        self.bytes.push(b);
    }
}

} // verus!
