//! Fixed-capacity byte buffer and the in-memory writer/reader interfaces that
//! the message codecs serialize through.

use vstd::prelude::*;
use crate::Z_MAX_MTU;

verus! {

/// Raised when a fixed buffer would overflow during encode.
#[derive(Debug, Clone, Copy, PartialEq, Eq, Structural)]
pub struct DidntWrite;

/// Raised when a fixed buffer is exhausted during decode.
#[derive(Debug, Clone, Copy, PartialEq, Eq, Structural)]
pub struct DidntRead;

/// Byte sink for message encoding. `written()` is the byte sequence accepted
/// so far and `room()` how many more bytes are guaranteed to be accepted.
pub trait Writer: Sized {
    spec fn written(&self) -> Seq<u8>;

    spec fn room(&self) -> int;

    fn write(&mut self, bytes: &[u8]) -> (r: Result<(), DidntWrite>)
        ensures
            r is Ok ==> final(self).written() == old(self).written() + bytes@
                && final(self).room() == old(self).room() - bytes@.len(),
            r is Err ==> final(self).written() == old(self).written()
                && final(self).room() == old(self).room(),
            bytes@.len() <= old(self).room() ==> r is Ok,
    ;

    fn write_exact(&mut self, bytes: &[u8]) -> (r: Result<(), DidntWrite>)
        ensures
            r is Ok ==> final(self).written() == old(self).written() + bytes@
                && final(self).room() == old(self).room() - bytes@.len(),
            r is Err ==> final(self).written() == old(self).written()
                && final(self).room() == old(self).room(),
            bytes@.len() <= old(self).room() ==> r is Ok,
    ;

    fn write_u8(&mut self, byte: u8) -> (r: Result<(), DidntWrite>)
        ensures
            r is Ok ==> final(self).written() == old(self).written().push(byte)
                && final(self).room() == old(self).room() - 1,
            r is Err ==> final(self).written() == old(self).written()
                && final(self).room() == old(self).room(),
            1 <= old(self).room() ==> r is Ok,
    ;
}

/// Byte source for message decoding. `remaining()` is the byte sequence not
/// yet consumed.
pub trait Reader: Sized {
    spec fn remaining(&self) -> Seq<u8>;

    fn read_u8(&mut self) -> (r: Result<u8, DidntRead>)
        ensures
            old(self).remaining().len() > 0 ==> (r matches Ok(b)
                && b == old(self).remaining()[0]
                && final(self).remaining() == old(self).remaining().skip(1)),
            old(self).remaining().len() == 0 ==> r is Err
                && final(self).remaining() == old(self).remaining(),
    ;

    /// Reads up to `n` bytes, at least one when any remain.
    fn read(&mut self, n: usize) -> (r: Result<Vec<u8>, DidntRead>)
        ensures
            old(self).remaining().len() > 0 ==> (r matches Ok(v)
                && v@.len() == vstd::math::min(n as int, old(self).remaining().len() as int)
                && v@ == old(self).remaining().take(v@.len() as int)
                && final(self).remaining() == old(self).remaining().skip(v@.len() as int)),
            old(self).remaining().len() == 0 ==> r is Err
                && final(self).remaining() == old(self).remaining(),
    ;

    /// Reads exactly `n` bytes, failing without consuming anything otherwise.
    fn read_exact(&mut self, n: usize) -> (r: Result<Vec<u8>, DidntRead>)
        ensures
            (0 < old(self).remaining().len() && n <= old(self).remaining().len()) ==> (r matches Ok(v)
                && v@ == old(self).remaining().take(n as int)
                && final(self).remaining() == old(self).remaining().skip(n as int)),
            (old(self).remaining().len() == 0 || n > old(self).remaining().len()) ==> r is Err
                && final(self).remaining() == old(self).remaining(),
    ;
}

/// Fixed-capacity byte container: holds at most `Z_MAX_MTU` bytes and rejects
/// writes past that bound.
pub struct ZVec {
    pub vec: Vec<u8>,
}

impl View for ZVec {
    type V = Seq<u8>;

    open spec fn view(&self) -> Seq<u8> {
        self.vec@
    }
}

impl ZVec {
    pub open spec fn wf(&self) -> bool {
        self.vec@.len() <= Z_MAX_MTU
    }

    pub fn new() -> (r: ZVec)
        ensures
            r@ == Seq::<u8>::empty(),
            r.wf(),
    {
        ZVec { vec: Vec::new() }
    }

    pub fn as_slice(&self) -> (r: &[u8])
        ensures
            r@ == self@,
    {
        self.vec.as_slice()
    }

    pub fn clear(&mut self)
        ensures
            final(self)@ == Seq::<u8>::empty(),
            final(self).wf(),
    {
        self.vec.clear()
    }

    pub fn len(&self) -> (r: usize)
        ensures
            r == self@.len(),
    {
        self.vec.len()
    }

    /// Replaces the contents with the given bytes, failing when they exceed
    /// the capacity.
    pub fn fill_from(&mut self, bytes: &[u8]) -> (r: Result<(), DidntWrite>)
        ensures
            r is Ok ==> final(self)@ == bytes@ && final(self).wf(),
            r is Err ==> final(self)@ == old(self)@ && final(self).wf() == old(self).wf(),
            bytes@.len() <= Z_MAX_MTU ==> r is Ok,
    {
        if bytes.len() > Z_MAX_MTU {
            return Err(DidntWrite);
        }
        self.vec.clear();
        self.vec.extend_from_slice(bytes);
        Ok(())
    }

    /// Borrows the first `len` bytes as a read cursor.
    pub fn extract_slice<'a>(&'a self, len: usize) -> (r: Result<ZVecSlice<'a>, DidntRead>)
        ensures
            len <= self@.len() ==> (r matches Ok(s) && s.remaining() == self@.take(len as int)),
            len > self@.len() ==> r is Err,
    {
        if len > self.vec.len() {
            return Err(DidntRead);
        }
        let s = vstd::slice::slice_subrange(self.vec.as_slice(), 0, len);
        Ok(ZVecSlice { buf: s, idx: 0 })
    }
}

impl Writer for ZVec {
    open spec fn written(&self) -> Seq<u8> {
        self.vec@
    }

    open spec fn room(&self) -> int {
        Z_MAX_MTU - self.vec@.len()
    }

    fn write(&mut self, bytes: &[u8]) -> (r: Result<(), DidntWrite>) {
        let len = self.vec.len();
        if len > Z_MAX_MTU || bytes.len() > Z_MAX_MTU - len {
            return Err(DidntWrite);
        }
        self.vec.extend_from_slice(bytes);
        Ok(())
    }

    fn write_exact(&mut self, bytes: &[u8]) -> (r: Result<(), DidntWrite>) {
        self.write(bytes)
    }

    fn write_u8(&mut self, byte: u8) -> (r: Result<(), DidntWrite>) {
        if self.vec.len() >= Z_MAX_MTU {
            return Err(DidntWrite);
        }
        self.vec.push(byte);
        Ok(())
    }
}

/// Read cursor over a borrowed prefix of a `ZVec`.
pub struct ZVecSlice<'a> {
    pub buf: &'a [u8],
    pub idx: usize,
}

impl<'a> ZVecSlice<'a> {
    pub open spec fn wf(&self) -> bool {
        self.idx <= self.buf@.len()
    }
}

impl<'a> Reader for ZVecSlice<'a> {
    open spec fn remaining(&self) -> Seq<u8> {
        if self.idx <= self.buf@.len() {
            self.buf@.skip(self.idx as int)
        } else {
            Seq::empty()
        }
    }

    fn read_u8(&mut self) -> (r: Result<u8, DidntRead>) {
        if self.idx >= self.buf.len() {
            proof {
                if self.idx == self.buf@.len() {
                    assert(self.buf@.skip(self.idx as int) =~= Seq::<u8>::empty());
                }
            }
            return Err(DidntRead);
        }
        let b = *vstd::slice::slice_index_get(self.buf, self.idx);
        self.idx = self.idx + 1;
        proof {
            assert(self.buf@.skip(self.idx as int)
                =~= old(self).buf@.skip(old(self).idx as int).skip(1));
            assert(b == old(self).buf@.skip(old(self).idx as int)[0]);
        }
        Ok(b)
    }

    fn read(&mut self, n: usize) -> (r: Result<Vec<u8>, DidntRead>) {
        if self.idx >= self.buf.len() {
            proof {
                if self.idx == self.buf@.len() {
                    assert(self.buf@.skip(self.idx as int) =~= Seq::<u8>::empty());
                }
            }
            return Err(DidntRead);
        }
        let rem = self.buf.len() - self.idx;
        let to_read = if n < rem { n } else { rem };
        let s = vstd::slice::slice_subrange(self.buf, self.idx, self.idx + to_read);
        let v = vstd::slice::slice_to_vec(s);
        self.idx = self.idx + to_read;
        proof {
            let pre = old(self).buf@.skip(old(self).idx as int);
            assert(v@ =~= pre.take(to_read as int));
            assert(self.buf@.skip(self.idx as int) =~= pre.skip(to_read as int));
        }
        Ok(v)
    }

    fn read_exact(&mut self, n: usize) -> (r: Result<Vec<u8>, DidntRead>) {
        if self.idx >= self.buf.len() {
            proof {
                if self.idx == self.buf@.len() {
                    assert(self.buf@.skip(self.idx as int) =~= Seq::<u8>::empty());
                }
            }
            return Err(DidntRead);
        }
        if n > self.buf.len() - self.idx {
            return Err(DidntRead);
        }
        let s = vstd::slice::slice_subrange(self.buf, self.idx, self.idx + n);
        let v = vstd::slice::slice_to_vec(s);
        self.idx = self.idx + n;
        proof {
            let pre = old(self).buf@.skip(old(self).idx as int);
            assert(v@ =~= pre.take(n as int));
            assert(self.buf@.skip(self.idx as int) =~= pre.skip(n as int));
        }
        Ok(v)
    }
}

} // verus!
