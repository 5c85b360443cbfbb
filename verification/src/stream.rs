//! A byte stream over a buffer that is held in memory.

use vstd::prelude::*;

verus! {

/// A buffer of bytes with a reading position: what lies behind the position
/// is still to be read.
pub struct VecStream {
    data: Vec<u8>,
    at: usize,
}

impl View for VecStream {
    type V = Seq<u8>;

    /// The bytes that are still to be read.
    closed spec fn view(&self) -> Seq<u8> {
        self.data@.skip(self.at as int)
    }
}

impl VecStream {
    #[verifier::type_invariant]
    spec fn in_bounds(&self) -> bool {
        self.at <= self.data.len()
    }

    /// A stream that reads `v` from its first byte.
    pub fn new(v: Vec<u8>) -> (stream: VecStream)
        ensures
            stream@ == v@,
    {
        let stream = VecStream { data: v, at: 0 };
        stream
    }

    /// Moves bytes from the stream to the front of `buf`: as many as `buf`
    /// takes, or as are left. The result is their number; the rest of `buf`
    /// stays as it was.
    pub fn read(&mut self, buf: &mut [u8]) -> (n: usize)
        ensures
            n == if old(buf)@.len() <= old(self)@.len() {
                old(buf)@.len()
            } else {
                old(self)@.len()
            },
            final(buf)@ == old(self)@.take(n as int) + old(buf)@.skip(n as int),
            final(self)@ == old(self)@.skip(n as int),
    {
        proof {
            use_type_invariant(&*self);
        }
        let ghost unread = self@;
        let ghost target = buf@;
        let mut i: usize = 0;
        while i < buf.len() && self.at < self.data.len()
            invariant
                i <= buf.len(),
                buf@.len() == target.len(),
                self.data == old(self).data,
                self.at == old(self).at + i,
                self.at <= self.data.len(),
                unread == old(self)@,
                buf@ == unread.take(i as int) + target.skip(i as int),
            decreases buf.len() - i,
        {
            buf[i] = self.data[self.at];
            self.at += 1;
            i += 1;
        }
        i
    }
}

} // verus!
