use vstd::prelude::*;
use vstd::slice::slice_subrange;

use crate::error::NbtError;
use crate::grammar::{be16, be32};

verus! {

/// A read position in a borrowed input buffer; what lies before it has been consumed.
pub struct Cursor<'a> {
    pub data: &'a [u8],
    pub pos: usize,
}

impl<'a> Cursor<'a> {
    pub open spec fn wf(&self) -> bool {
        self.pos <= self.data@.len()
    }

    pub open spec fn remaining(&self) -> int {
        self.data@.len() - self.pos
    }

    pub fn new(data: &'a [u8]) -> (c: Cursor<'a>)
        ensures
            c.wf(),
            c.data == data,
            c.pos == 0,
    {
        Cursor { data, pos: 0 }
    }

    /// Consumes the next `n` bytes and returns them without copying.
    pub fn take(&mut self, n: usize) -> (r: Result<&'a [u8], NbtError>)
        requires
            old(self).wf(),
        ensures
            final(self).wf(),
            final(self).data == old(self).data,
            n <= old(self).remaining() <==> r is Ok,
            r matches Ok(b) ==> b@ == old(self).data@.subrange(
                old(self).pos as int,
                old(self).pos + n,
            ) && final(self).pos == old(self).pos + n,
            r matches Err(e) ==> e == NbtError::UnexpectedEndOfInput && final(self).pos
                == old(self).pos,
    {
        if n > self.data.len() - self.pos {
            return Err(NbtError::UnexpectedEndOfInput);
        }
        let b = slice_subrange(self.data, self.pos, self.pos + n);
        self.pos = self.pos + n;
        Ok(b)
    }

    /// Consumes one byte.
    pub fn read_u8(&mut self) -> (r: Result<u8, NbtError>)
        requires
            old(self).wf(),
        ensures
            final(self).wf(),
            final(self).data == old(self).data,
            1 <= old(self).remaining() <==> r is Ok,
            r matches Ok(x) ==> x == old(self).data@[old(self).pos as int] && final(self).pos
                == old(self).pos + 1,
            r matches Err(e) ==> e == NbtError::UnexpectedEndOfInput && final(self).pos
                == old(self).pos,
    {
        if self.pos >= self.data.len() {
            return Err(NbtError::UnexpectedEndOfInput);
        }
        let x = self.data[self.pos];
        self.pos = self.pos + 1;
        Ok(x)
    }

    /// Consumes a big-endian 16-bit number.
    pub fn read_u16(&mut self) -> (r: Result<u16, NbtError>)
        requires
            old(self).wf(),
        ensures
            final(self).wf(),
            final(self).data == old(self).data,
            2 <= old(self).remaining() <==> r is Ok,
            r matches Ok(x) ==> x == be16(old(self).data@, old(self).pos as int) && final(self).pos == old(self).pos + 2,
            r matches Err(e) ==> e == NbtError::UnexpectedEndOfInput && final(self).pos
                == old(self).pos,
    {
        let b = self.take(2)?;
        Ok(b[0] as u16 * 256 + b[1] as u16)
    }

    /// Consumes a big-endian 32-bit number.
    pub fn read_u32(&mut self) -> (r: Result<u32, NbtError>)
        requires
            old(self).wf(),
        ensures
            final(self).wf(),
            final(self).data == old(self).data,
            4 <= old(self).remaining() <==> r is Ok,
            r matches Ok(x) ==> x == be32(old(self).data@, old(self).pos as int) && final(self).pos == old(self).pos + 4,
            r matches Err(e) ==> e == NbtError::UnexpectedEndOfInput && final(self).pos
                == old(self).pos,
    {
        let b = self.take(4)?;
        let hi = b[0] as u32 * 256 + b[1] as u32;
        let mid = hi * 256 + b[2] as u32;
        Ok(mid * 256 + b[3] as u32)
    }
}

} // verus!
