//! A bounded, append-only byte writer.
use vstd::prelude::*;
use vstd::string::*;

verus! {

/// Longest string, in bytes, that `write_string` accepts.
pub const MAX_NET_STRING: usize = 2048;

/// An append-only byte buffer that never grows past the capacity it was made with.
pub struct MsgBuf {
    buf: Vec<u8>,
    cap: usize,
}

impl View for MsgBuf {
    type V = Seq<u8>;

    /// The bytes written since the buffer was made or last cleared.
    closed spec fn view(&self) -> Seq<u8> {
        self.buf@
    }
}

impl MsgBuf {
    /// The number of bytes the buffer can hold.
    pub closed spec fn capacity(&self) -> nat {
        self.cap as nat
    }

    /// The buffer holds no more than its capacity.
    pub open spec fn wf(&self) -> bool {
        self@.len() <= self.capacity()
    }

    pub fn new(size: usize) -> (r: MsgBuf)
        ensures
            r@ == Seq::<u8>::empty(),
            r.capacity() == size,
            r.wf(),
    {
        MsgBuf { buf: Vec::new(), cap: size }
    }

    /// A copy of the bytes written so far.
    pub fn get_msg(&self) -> (r: Vec<u8>)
        ensures
            r@ == self@,
    {
        self.buf.clone()
    }

    /// Rewinds the buffer to empty.
    pub fn clear(&mut self)
        ensures
            final(self)@ == Seq::<u8>::empty(),
            final(self).capacity() == old(self).capacity(),
            old(self).wf() ==> final(self).wf(),
    {
        self.buf.clear();
    }

    pub fn len(&self) -> (r: usize)
        ensures
            r == self@.len(),
    {
        self.buf.len()
    }

    /// How many more bytes fit.
    pub fn room(&self) -> (r: usize)
        ensures
            r == if self@.len() <= self.capacity() { self.capacity() - self@.len() } else { 0 },
    {
        if self.buf.len() <= self.cap {
            self.cap - self.buf.len()
        } else {
            0
        }
    }

    pub fn is_empty(&self) -> (r: bool)
        ensures
            r == (self@.len() == 0),
    {
        self.buf.len() == 0
    }

    /// Appends one byte if there is room; reports whether it did.
    pub fn write_u8(&mut self, b: u8) -> (r: bool)
        ensures
            r == (old(self)@.len() < old(self).capacity()),
            r ==> final(self)@ == old(self)@.push(b),
            !r ==> final(self)@ == old(self)@,
            final(self).capacity() == old(self).capacity(),
            old(self).wf() ==> final(self).wf(),
    {
        if self.buf.len() >= self.cap {
            return false;
        }
        self.buf.push(b);
        true
    }

    /// Appends all of `bytes` if they fit, or nothing; reports whether it did.
    pub fn write_bytes(&mut self, bytes: &[u8]) -> (r: bool)
        ensures
            r == (old(self)@.len() + bytes@.len() <= old(self).capacity()),
            r ==> final(self)@ == old(self)@ + bytes@,
            !r ==> final(self)@ == old(self)@,
            final(self).capacity() == old(self).capacity(),
            old(self).wf() ==> final(self).wf(),
    {
        if self.buf.len() > self.cap || self.cap - self.buf.len() < bytes.len() {
            return false;
        }
        let ghost start = self.buf@;
        let mut i: usize = 0;
        while i < bytes.len()
            invariant
                i <= bytes@.len(),
                self.buf@ == start + bytes@.subrange(0, i as int),
                self.cap == old(self).cap,
            decreases bytes@.len() - i,
        {
            self.buf.push(bytes[i]);
            i = i + 1;
            assert(self.buf@ =~= start + bytes@.subrange(0, i as int));
        }
        assert(bytes@.subrange(0, i as int) =~= bytes@);
        true
    }

    /// Writes `bytes` and a terminating zero. More than `MAX_NET_STRING`
    /// bytes are refused, and a lone zero byte is written in their place. A
    /// string that does not fit with its terminator is refused and nothing
    /// is written.
    pub fn write_cstring(&mut self, bytes: &[u8]) -> (r: Option<()>)
        ensures
            final(self).capacity() == old(self).capacity(),
            old(self).wf() ==> final(self).wf(),
            r is Some <==> bytes@.len() <= MAX_NET_STRING && old(self)@.len() + bytes@.len() + 1
                <= old(self).capacity(),
            final(self)@ == if bytes@.len() > MAX_NET_STRING {
                if old(self)@.len() < old(self).capacity() { old(self)@.push(0) } else { old(self)@ }
            } else if r is Some {
                old(self)@ + bytes@ + seq![0u8]
            } else {
                old(self)@
            },
    {
        if bytes.len() > MAX_NET_STRING {
            self.write_u8(0);
            return None;
        }
        if self.buf.len() > self.cap || self.cap - self.buf.len() < bytes.len() + 1 {
            return None;
        }
        self.write_bytes(bytes);
        self.write_u8(0);
        Some(())
    }

    /// Writes the UTF-8 bytes of `s` and a terminating zero, as `write_cstring`.
    pub fn write_string(&mut self, s: &str) -> (r: Option<()>)
        ensures
            final(self).capacity() == old(self).capacity(),
            old(self).wf() ==> final(self).wf(),
            r is Some <==> s.spec_bytes().len() <= MAX_NET_STRING && old(self)@.len() + s.spec_bytes().len()
                + 1 <= old(self).capacity(),
            final(self)@ == if s.spec_bytes().len() > MAX_NET_STRING {
                if old(self)@.len() < old(self).capacity() { old(self)@.push(0) } else { old(self)@ }
            } else if r is Some {
                old(self)@ + s.spec_bytes() + seq![0u8]
            } else {
                old(self)@
            },
    {
        self.write_cstring(s.as_bytes())
    }
}

} // verus!
