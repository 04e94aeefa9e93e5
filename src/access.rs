//! Guest configuration accesses: a direction, an offset and a buffer.
use vstd::prelude::*;
use byteorder::ByteOrder;

verus! {

/// The direction of an access.
#[derive(Copy, Clone, PartialEq, Eq, Structural, Debug)]
pub enum OpKind {
    /// The guest reads: the handler fills `buf`.
    Read,
    /// The guest writes: `buf` holds the data.
    Write,
}

/// A read or write of `buf.len()` bytes at `offset` within some region.
pub struct RWOp {
    pub kind: OpKind,
    pub offset: usize,
    pub buf: Vec<u8>,
}

/// The value of four little-endian bytes.
pub open spec fn le_u32(b: Seq<u8>) -> u32 {
    (b[0] as u32) | ((b[1] as u32) << 8u32) | ((b[2] as u32) << 16u32) | ((b[3] as u32) << 24u32)
}

/// The four little-endian bytes of `n`.
pub open spec fn le_bytes(n: u32) -> Seq<u8> {
    seq![(n & 0xff) as u8, ((n >> 8u32) & 0xff) as u8, ((n >> 16u32) & 0xff) as u8, ((n >> 24u32) & 0xff) as u8]
}

/// Every byte of `b` is `v`.
pub open spec fn all_bytes(b: Seq<u8>, v: u8) -> bool {
    forall|i: int| 0 <= i < b.len() ==> #[trigger] b[i] == v
}

/// Relies on byteorder's `LittleEndian::read_u32`: the first four bytes,
/// least significant first.
#[verifier::external_body]
fn le_read_u32(buf: &[u8]) -> (r: u32)
    requires
        buf@.len() >= 4,
    ensures
        r == le_u32(buf@),
{
    byteorder::LittleEndian::read_u32(buf)
}

/// Relies on byteorder's `LittleEndian::write_u32`: the first four bytes
/// become `n`, least significant first; the rest stay.
#[verifier::external_body]
fn le_write_u32(buf: &mut Vec<u8>, n: u32)
    requires
        old(buf)@.len() >= 4,
    ensures
        final(buf)@ == le_bytes(n) + old(buf)@.subrange(4, old(buf)@.len() as int),
{
    byteorder::LittleEndian::write_u32(buf.as_mut_slice(), n)
}

impl RWOp {
    /// `self` is `o` as a handler may leave it: same direction, offset and
    /// length, and the data of a write untouched.
    pub open spec fn same_access(self, o: RWOp) -> bool {
        &&& self.kind == o.kind
        &&& self.offset == o.offset
        &&& self.buf@.len() == o.buf@.len()
        &&& o.kind == OpKind::Write ==> self.buf@ == o.buf@
    }

    pub open spec fn is_read(self) -> bool {
        self.kind == OpKind::Read
    }

    /// A read of `buf.len()` bytes at `offset`.
    pub fn new_read(offset: usize, buf: Vec<u8>) -> (r: RWOp)
        ensures
            r.kind == OpKind::Read,
            r.offset == offset,
            r.buf == buf,
    {
        RWOp { kind: OpKind::Read, offset, buf }
    }

    /// A write of `buf` at `offset`.
    pub fn new_write(offset: usize, buf: Vec<u8>) -> (r: RWOp)
        ensures
            r.kind == OpKind::Write,
            r.offset == offset,
            r.buf == buf,
    {
        RWOp { kind: OpKind::Write, offset, buf }
    }

    pub fn len(&self) -> (r: usize)
        ensures
            r == self.buf@.len(),
    {
        self.buf.len()
    }

    pub fn offset(&self) -> (r: usize)
        ensures
            r == self.offset,
    {
        self.offset
    }

    pub fn is_read_op(&self) -> (r: bool)
        ensures
            r == self.is_read(),
    {
        self.kind == OpKind::Read
    }

    /// Sets every byte of the buffer to `v`.
    pub fn fill(&mut self, v: u8)
        ensures
            final(self).kind == old(self).kind,
            final(self).offset == old(self).offset,
            final(self).buf@.len() == old(self).buf@.len(),
            all_bytes(final(self).buf@, v),
    {
        let n = self.buf.len();
        let mut i: usize = 0;
        while i < n
            invariant
                n == self.buf@.len(),
                self.kind == old(self).kind,
                self.offset == old(self).offset,
                n == old(self).buf@.len(),
                i <= n,
                forall|j: int| 0 <= j < i ==> #[trigger] self.buf@[j] == v,
            decreases n - i,
        {
            self.buf.set(i, v);
            i = i + 1;
        }
    }

    /// The first four bytes of the buffer, read little-endian.
    pub fn read_u32(&self) -> (r: u32)
        requires
            self.buf@.len() >= 4,
        ensures
            r == le_u32(self.buf@),
    {
        le_read_u32(self.buf.as_slice())
    }

    /// Stores `n` little-endian in the first four bytes of the buffer.
    pub fn write_u32(&mut self, n: u32)
        requires
            old(self).buf@.len() >= 4,
        ensures
            final(self).kind == old(self).kind,
            final(self).offset == old(self).offset,
            final(self).buf@ == le_bytes(n) + old(self).buf@.subrange(4, old(self).buf@.len() as int),
    {
        le_write_u32(&mut self.buf, n)
    }
}

} // verus!
