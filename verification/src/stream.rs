//! Byte sources: a cursor over a slice, and a reader held to a declared
//! number of bytes.

use crate::endian::{
    be_u128, be_u16, be_u24, be_u32, be_u64, read_be_u128, read_be_u16, read_be_u24, read_be_u32,
    read_be_u64,
};
use crate::error::Error;
use vstd::prelude::*;
use vstd::slice::slice_subrange;

verus! {

/// Whether `n` bytes lie at `pos` within `data`.
pub open spec fn fits(data: Seq<u8>, pos: int, n: int) -> bool {
    0 <= pos && 0 <= n && pos + n <= data.len()
}

/// The place after the `n` bytes at `pos` where they are all there, and
/// `pos` where they are not: where reading stops when the bytes end
/// within the field after them.
pub open spec fn past(data: Seq<u8>, pos: int, n: int) -> int {
    if fits(data, pos, n) {
        pos + n
    } else {
        pos
    }
}

/// The place after the last of the fields of `width` bytes from `pos` on
/// that is whole: where reading such fields one after the other stops
/// when the bytes end.
pub open spec fn past_fields(data: Seq<u8>, pos: int, width: int) -> int {
    if 0 <= pos <= data.len() && width > 0 {
        pos + width * ((data.len() - pos) / width)
    } else {
        pos
    }
}

/// The `n` bytes of `data` that start at `pos`.
pub open spec fn bytes_at(data: Seq<u8>, pos: int, n: int) -> Seq<u8>
    recommends
        fits(data, pos, n),
{
    data.subrange(pos, pos + n)
}

/// The big-endian 16-bit value at `pos`.
pub open spec fn u16_at(data: Seq<u8>, pos: int) -> u16
    recommends
        fits(data, pos, 2),
{
    be_u16(bytes_at(data, pos, 2))
}

/// The big-endian 24-bit value at `pos`.
pub open spec fn u24_at(data: Seq<u8>, pos: int) -> u32
    recommends
        fits(data, pos, 3),
{
    be_u24(bytes_at(data, pos, 3))
}

/// The big-endian 32-bit value at `pos`.
pub open spec fn u32_at(data: Seq<u8>, pos: int) -> u32
    recommends
        fits(data, pos, 4),
{
    be_u32(bytes_at(data, pos, 4))
}

/// The big-endian 64-bit value at `pos`.
pub open spec fn u64_at(data: Seq<u8>, pos: int) -> u64
    recommends
        fits(data, pos, 8),
{
    be_u64(bytes_at(data, pos, 8))
}

/// The big-endian 128-bit value at `pos`.
pub open spec fn u128_at(data: Seq<u8>, pos: int) -> u128
    recommends
        fits(data, pos, 16),
{
    be_u128(bytes_at(data, pos, 16))
}

/// The `n` bytes at `pos`, or nothing when they are not all there.
fn window<'a>(data: &'a [u8], pos: usize, n: usize) -> (r: Option<&'a [u8]>)
    ensures
        match r {
            Some(w) => fits(data@, pos as int, n as int) && w@ == bytes_at(
                data@,
                pos as int,
                n as int,
            ) && pos + n <= usize::MAX,
            None => !fits(data@, pos as int, n as int),
        },
{
    if pos <= data.len() && n <= data.len() - pos {
        Some(slice_subrange(data, pos, pos + n))
    } else {
        None
    }
}

/// A read position within a borrowed run of bytes. Reading past the end
/// fails with `UnexpectedEof` and leaves the position where it was.
#[derive(Debug, Clone, Copy)]
pub struct Cursor<'a> {
    /// The bytes being read.
    pub data: &'a [u8],
    /// The offset of the next byte to read.
    pub pos: usize,
}

impl<'a> Cursor<'a> {
    /// A cursor at the start of `data`.
    pub fn new(data: &'a [u8]) -> (r: Self)
        ensures
            r.data == data,
            r.pos == 0,
    {
        Cursor { data, pos: 0 }
    }

    /// The offset of the next byte to read.
    pub fn position(&self) -> (r: usize)
        ensures
            r == self.pos,
    {
        self.pos
    }

    /// Moves the cursor to `pos`, which may lie past the end.
    pub fn set_position(&mut self, pos: usize)
        ensures
            final(self).data == old(self).data,
            final(self).pos == pos,
    {
        self.pos = pos;
    }

    /// The bytes the cursor reads from.
    pub fn get_ref(&self) -> (r: &'a [u8])
        ensures
            r == self.data,
    {
        self.data
    }

    /// The offset of the next byte to read, as a mathematical integer.
    pub open spec fn at(&self) -> int {
        self.pos as int
    }

    /// How many bytes are left to read.
    pub open spec fn spec_remaining(&self) -> int {
        if self.pos <= self.data@.len() {
            self.data@.len() - self.pos
        } else {
            0
        }
    }

    /// How many bytes are left to read.
    pub fn remaining(&self) -> (r: usize)
        ensures
            r == self.spec_remaining(),
    {
        if self.pos <= self.data.len() {
            self.data.len() - self.pos
        } else {
            0
        }
    }

    /// Reads `n` bytes and hands them out as a slice of the source.
    pub fn read_exact(&mut self, n: usize) -> (r: Result<&'a [u8], Error>)
        ensures
            final(self).data == old(self).data,
            match r {
                Ok(w) => fits(old(self).data@, old(self).pos as int, n as int) && w@ == bytes_at(
                    old(self).data@,
                    old(self).pos as int,
                    n as int,
                ) && final(self).pos == old(self).pos + n,
                Err(e) => !fits(old(self).data@, old(self).pos as int, n as int) && e
                    == Error::UnexpectedEof && final(self).pos == old(self).pos,
            },
    {
        match window(self.data, self.pos, n) {
            Some(w) => {
                self.pos = self.pos + n;
                Ok(w)
            },
            None => Err(Error::UnexpectedEof),
        }
    }

    /// Reads one byte.
    pub fn read_u8(&mut self) -> (r: Result<u8, Error>)
        ensures
            final(self).data == old(self).data,
            match r {
                Ok(v) => fits(old(self).data@, old(self).pos as int, 1) && v == old(
                    self,
                ).data@[old(self).pos as int] && final(self).pos == old(self).pos + 1,
                Err(e) => !fits(old(self).data@, old(self).pos as int, 1) && e
                    == Error::UnexpectedEof && final(self).pos == old(self).pos,
            },
    {
        let w = self.read_exact(1)?;
        Ok(w[0])
    }

    /// Reads a big-endian 16-bit value.
    pub fn read_u16(&mut self) -> (r: Result<u16, Error>)
        ensures
            final(self).data == old(self).data,
            match r {
                Ok(v) => fits(old(self).data@, old(self).pos as int, 2) && v == u16_at(
                    old(self).data@,
                    old(self).pos as int,
                ) && final(self).pos == old(self).pos + 2,
                Err(e) => !fits(old(self).data@, old(self).pos as int, 2) && e
                    == Error::UnexpectedEof && final(self).pos == old(self).pos,
            },
    {
        let w = self.read_exact(2)?;
        Ok(read_be_u16(w))
    }

    /// Reads a big-endian 24-bit value.
    pub fn read_u24(&mut self) -> (r: Result<u32, Error>)
        ensures
            final(self).data == old(self).data,
            match r {
                Ok(v) => fits(old(self).data@, old(self).pos as int, 3) && v == u24_at(
                    old(self).data@,
                    old(self).pos as int,
                ) && final(self).pos == old(self).pos + 3,
                Err(e) => !fits(old(self).data@, old(self).pos as int, 3) && e
                    == Error::UnexpectedEof && final(self).pos == old(self).pos,
            },
    {
        let w = self.read_exact(3)?;
        Ok(read_be_u24(w))
    }

    /// Reads a big-endian 32-bit value.
    pub fn read_u32(&mut self) -> (r: Result<u32, Error>)
        ensures
            final(self).data == old(self).data,
            match r {
                Ok(v) => fits(old(self).data@, old(self).pos as int, 4) && v == u32_at(
                    old(self).data@,
                    old(self).pos as int,
                ) && final(self).pos == old(self).pos + 4,
                Err(e) => !fits(old(self).data@, old(self).pos as int, 4) && e
                    == Error::UnexpectedEof && final(self).pos == old(self).pos,
            },
    {
        let w = self.read_exact(4)?;
        Ok(read_be_u32(w))
    }

    /// Reads a big-endian 64-bit value.
    pub fn read_u64(&mut self) -> (r: Result<u64, Error>)
        ensures
            final(self).data == old(self).data,
            match r {
                Ok(v) => fits(old(self).data@, old(self).pos as int, 8) && v == u64_at(
                    old(self).data@,
                    old(self).pos as int,
                ) && final(self).pos == old(self).pos + 8,
                Err(e) => !fits(old(self).data@, old(self).pos as int, 8) && e
                    == Error::UnexpectedEof && final(self).pos == old(self).pos,
            },
    {
        let w = self.read_exact(8)?;
        Ok(read_be_u64(w))
    }
}

/// A reader held to the bytes that a length field declared. It reads from
/// a window of the source, and a read that asks for more than the window
/// still holds fails with `MalformedAttribute`, consuming nothing.
#[derive(Debug, Clone, Copy)]
pub struct ReadCountingStream<'a> {
    /// The bytes of the window.
    pub data: &'a [u8],
    /// The offset of the next byte to read within the window.
    pub pos: usize,
}

impl<'a> ReadCountingStream<'a> {
    /// Bounds `stream` to its next `remaining` bytes, and moves `stream`
    /// past them. Fails with `UnexpectedEof`, moving nothing, when the
    /// source holds fewer.
    pub fn new(stream: &mut Cursor<'a>, remaining: usize) -> (r: Result<Self, Error>)
        ensures
            final(stream).data == old(stream).data,
            match r {
                Ok(s) => fits(old(stream).data@, old(stream).pos as int, remaining as int)
                    && s.data@ == bytes_at(
                    old(stream).data@,
                    old(stream).pos as int,
                    remaining as int,
                ) && s.pos == 0 && final(stream).pos == old(stream).pos + remaining,
                Err(e) => !fits(old(stream).data@, old(stream).pos as int, remaining as int)
                    && e == Error::UnexpectedEof && final(stream).pos == old(stream).pos,
            },
    {
        let w = stream.read_exact(remaining)?;
        Ok(ReadCountingStream { data: w, pos: 0 })
    }

    /// The offset of the next byte to read, as a mathematical integer.
    pub open spec fn at(&self) -> int {
        self.pos as int
    }

    /// How many bytes of the window are left.
    pub open spec fn spec_remaining(&self) -> int {
        if self.pos <= self.data@.len() {
            self.data@.len() - self.pos
        } else {
            0
        }
    }

    /// How many bytes of the window are left.
    pub fn remaining(&self) -> (r: usize)
        ensures
            r == self.spec_remaining(),
    {
        if self.pos <= self.data.len() {
            self.data.len() - self.pos
        } else {
            0
        }
    }

    /// Reads `n` bytes and hands them out as a slice of the source.
    pub fn read_exact(&mut self, n: usize) -> (r: Result<&'a [u8], Error>)
        ensures
            final(self).data == old(self).data,
            match r {
                Ok(w) => fits(old(self).data@, old(self).pos as int, n as int) && w@ == bytes_at(
                    old(self).data@,
                    old(self).pos as int,
                    n as int,
                ) && final(self).pos == old(self).pos + n,
                Err(e) => !fits(old(self).data@, old(self).pos as int, n as int) && e
                    == Error::MalformedAttribute && final(self).pos == old(self).pos,
            },
    {
        match window(self.data, self.pos, n) {
            Some(w) => {
                self.pos = self.pos + n;
                Ok(w)
            },
            None => Err(Error::MalformedAttribute),
        }
    }

    /// Reads one byte.
    pub fn read_u8(&mut self) -> (r: Result<u8, Error>)
        ensures
            final(self).data == old(self).data,
            match r {
                Ok(v) => fits(old(self).data@, old(self).pos as int, 1) && v == old(
                    self,
                ).data@[old(self).pos as int] && final(self).pos == old(self).pos + 1,
                Err(e) => !fits(old(self).data@, old(self).pos as int, 1) && e
                    == Error::MalformedAttribute && final(self).pos == old(self).pos,
            },
    {
        let w = self.read_exact(1)?;
        Ok(w[0])
    }

    /// Reads a big-endian 16-bit value.
    pub fn read_u16(&mut self) -> (r: Result<u16, Error>)
        ensures
            final(self).data == old(self).data,
            match r {
                Ok(v) => fits(old(self).data@, old(self).pos as int, 2) && v == u16_at(
                    old(self).data@,
                    old(self).pos as int,
                ) && final(self).pos == old(self).pos + 2,
                Err(e) => !fits(old(self).data@, old(self).pos as int, 2) && e
                    == Error::MalformedAttribute && final(self).pos == old(self).pos,
            },
    {
        let w = self.read_exact(2)?;
        Ok(read_be_u16(w))
    }

    /// Reads a big-endian 32-bit value.
    pub fn read_u32(&mut self) -> (r: Result<u32, Error>)
        ensures
            final(self).data == old(self).data,
            match r {
                Ok(v) => fits(old(self).data@, old(self).pos as int, 4) && v == u32_at(
                    old(self).data@,
                    old(self).pos as int,
                ) && final(self).pos == old(self).pos + 4,
                Err(e) => !fits(old(self).data@, old(self).pos as int, 4) && e
                    == Error::MalformedAttribute && final(self).pos == old(self).pos,
            },
    {
        let w = self.read_exact(4)?;
        Ok(read_be_u32(w))
    }

    /// Reads a big-endian 64-bit value.
    pub fn read_u64(&mut self) -> (r: Result<u64, Error>)
        ensures
            final(self).data == old(self).data,
            match r {
                Ok(v) => fits(old(self).data@, old(self).pos as int, 8) && v == u64_at(
                    old(self).data@,
                    old(self).pos as int,
                ) && final(self).pos == old(self).pos + 8,
                Err(e) => !fits(old(self).data@, old(self).pos as int, 8) && e
                    == Error::MalformedAttribute && final(self).pos == old(self).pos,
            },
    {
        let w = self.read_exact(8)?;
        Ok(read_be_u64(w))
    }

    /// Reads a big-endian 128-bit value.
    pub fn read_u128(&mut self) -> (r: Result<u128, Error>)
        ensures
            final(self).data == old(self).data,
            match r {
                Ok(v) => fits(old(self).data@, old(self).pos as int, 16) && v == u128_at(
                    old(self).data@,
                    old(self).pos as int,
                ) && final(self).pos == old(self).pos + 16,
                Err(e) => !fits(old(self).data@, old(self).pos as int, 16) && e
                    == Error::MalformedAttribute && final(self).pos == old(self).pos,
            },
    {
        let w = self.read_exact(16)?;
        Ok(read_be_u128(w))
    }
}

/// Two runs of bytes that follow each other in `data` are one run.
pub proof fn lemma_joined(out: Seq<u8>, data: Seq<u8>, pos: int, next: int, end: int)
    requires
        0 <= pos <= next <= end <= data.len(),
    ensures
        out + data.subrange(pos, next) + data.subrange(next, end) == out + data.subrange(pos, end),
        out + data.subrange(pos, pos) == out,
{
    assert(out + data.subrange(pos, next) + data.subrange(next, end) =~= out + data.subrange(
        pos,
        end,
    ));
    assert(out + data.subrange(pos, pos) =~= out);
}

} // verus!
