//! A read cursor over a byte slice, in the manner of `std::io::Cursor<&[u8]>`.
//!
//! The position may lie past the end of the data (a seek may put it there).
//! A read that cannot be completed fails with `UnexpectedEof` and leaves the
//! position at the end of the data, as `Cursor::read_exact` does.

use byteorder::{ByteOrder, LittleEndian};
use vstd::prelude::*;

verus! {

/// Why a read from the input failed.
#[derive(Debug, Clone, Copy, PartialEq, Eq)]
pub enum ReadFailure {
    /// The input ended before the value did.
    UnexpectedEof,
    /// The bytes do not encode a valid value (an unpaired UTF-16 surrogate).
    InvalidData,
}

/// The little-endian `u16` stored at `s[i]`, `s[i + 1]`.
pub open spec fn le_u16_at(s: Seq<u8>, i: int) -> int {
    s[i] as int + 256 * (s[i + 1] as int)
}

/// The little-endian `u32` stored at `s[i] .. s[i + 3]`.
pub open spec fn le_u32_at(s: Seq<u8>, i: int) -> int {
    le_u16_at(s, i) + 65536 * le_u16_at(s, i + 2)
}

/// `byteorder::LittleEndian::read_u16`: the first two bytes of `buf` read as a
/// little-endian integer (it panics on a shorter buffer, hence the `requires`).
#[verifier::external_body]
fn le_u16(buf: &[u8]) -> (r: u16)
    requires
        buf@.len() >= 2,
    ensures
        r == le_u16_at(buf@, 0),
{
    LittleEndian::read_u16(buf)
}

/// `byteorder::LittleEndian::read_u32`: the first four bytes of `buf` read as a
/// little-endian integer (it panics on a shorter buffer, hence the `requires`).
#[verifier::external_body]
fn le_u32(buf: &[u8]) -> (r: u32)
    requires
        buf@.len() >= 4,
    ensures
        r == le_u32_at(buf@, 0),
{
    LittleEndian::read_u32(buf)
}

/// A position in a borrowed byte slice.
pub struct ByteCursor<'a> {
    data: &'a [u8],
    pos: u64,
}

impl<'a> ByteCursor<'a> {
    /// The bytes being read.
    pub closed spec fn bytes(&self) -> Seq<u8> {
        self.data@
    }

    /// The current position, possibly past the end of `bytes()`.
    pub closed spec fn pos(&self) -> u64 {
        self.pos
    }

    /// Whether `k` bytes can be read at the current position.
    pub open spec fn can_read(&self, k: nat) -> bool {
        self.pos() + k <= self.bytes().len()
    }

    /// A cursor at the start of `data`.
    pub fn new(data: &'a [u8]) -> (c: Self)
        ensures
            c.bytes() == data@,
            c.pos() == 0,
    {
        ByteCursor { data, pos: 0 }
    }

    /// The current position.
    pub fn position(&self) -> (p: u64)
        ensures
            p == self.pos(),
    {
        self.pos
    }

    /// Moves to `pos`, which may lie past the end of the data.
    pub fn set_position(&mut self, pos: u64)
        ensures
            final(self).bytes() == old(self).bytes(),
            final(self).pos() == pos,
    {
        self.pos = pos;
    }

    /// The bytes being read.
    pub fn get_ref(&self) -> (r: &'a [u8])
        ensures
            r@ == self.bytes(),
    {
        self.data
    }

    /// The number of bytes being read, as a `u64`.
    pub fn data_len(&self) -> (n: u64)
        ensures
            n == self.bytes().len(),
    {
        self.data.len() as u64
    }

    /// Whether `k` bytes can be read at the current position.
    fn has_room(&self, k: u64) -> (b: bool)
        ensures
            b == self.can_read(k as nat),
    {
        let len = self.data.len() as u64;
        self.pos <= len && len - self.pos >= k
    }

    /// Reads a little-endian `u16` and moves past it; on failure the position
    /// moves to the end of the data.
    pub fn read_u16_le(&mut self) -> (r: Result<u16, ReadFailure>)
        ensures
            final(self).bytes() == old(self).bytes(),
            old(self).can_read(2) ==> r == Ok::<u16, ReadFailure>(
                le_u16_at(old(self).bytes(), old(self).pos() as int) as u16,
            ) && final(self).pos() == old(self).pos() + 2,
            !old(self).can_read(2) ==> r == Err::<u16, ReadFailure>(ReadFailure::UnexpectedEof)
                && final(self).pos() == old(self).bytes().len(),
    {
        if self.has_room(2) {
            let data = self.data;
            let pos = self.pos;
            let len = data.len();
            assert(pos + 2 <= len);
            let i = pos as usize;
            let v = le_u16(&data[i..i + 2]);
            self.pos = pos + 2;
            Ok(v)
        } else {
            self.pos = self.data.len() as u64;
            Err(ReadFailure::UnexpectedEof)
        }
    }

    /// Reads a little-endian `u32` and moves past it; on failure the position
    /// moves to the end of the data.
    pub fn read_u32_le(&mut self) -> (r: Result<u32, ReadFailure>)
        ensures
            final(self).bytes() == old(self).bytes(),
            old(self).can_read(4) ==> r == Ok::<u32, ReadFailure>(
                le_u32_at(old(self).bytes(), old(self).pos() as int) as u32,
            ) && final(self).pos() == old(self).pos() + 4,
            !old(self).can_read(4) ==> r == Err::<u32, ReadFailure>(ReadFailure::UnexpectedEof)
                && final(self).pos() == old(self).bytes().len(),
    {
        if self.has_room(4) {
            let data = self.data;
            let pos = self.pos;
            let len = data.len();
            assert(pos + 4 <= len);
            let i = pos as usize;
            let v = le_u32(&data[i..i + 4]);
            self.pos = pos + 4;
            Ok(v)
        } else {
            self.pos = self.data.len() as u64;
            Err(ReadFailure::UnexpectedEof)
        }
    }
}

} // verus!
