//! A positioned cursor over an owned byte vector, plus the big-endian
//! byte-order functions the rest of the engine states its contracts with.

use vstd::prelude::*;

verus! {

/// Byte `i` of `s`; positions outside the buffer read as zero.  The sector
/// tables treat a missing record exactly like an all-zero one, so the zero
/// padding is part of the format's meaning, not a convenience.
pub open spec fn byte_at(s: Seq<u8>, i: int) -> u8 {
    if 0 <= i < s.len() {
        s[i]
    } else {
        0
    }
}

/// Big-endian 16-bit value at `i`.
pub open spec fn be16_at(s: Seq<u8>, i: int) -> int {
    byte_at(s, i) * 0x100 + byte_at(s, i + 1)
}

/// Big-endian 24-bit value at `i`.
pub open spec fn be24_at(s: Seq<u8>, i: int) -> int {
    byte_at(s, i) * 0x10000 + byte_at(s, i + 1) * 0x100 + byte_at(s, i + 2)
}

/// Big-endian 32-bit unsigned value at `i`.
pub open spec fn be32_at(s: Seq<u8>, i: int) -> int {
    byte_at(s, i) * 0x1000000 + byte_at(s, i + 1) * 0x10000 + byte_at(s, i + 2) * 0x100 + byte_at(
        s,
        i + 3,
    )
}

/// The same four bytes as `be32_at`, read as a two's-complement 32-bit value.
pub open spec fn bei32_at(s: Seq<u8>, i: int) -> int {
    if be32_at(s, i) >= 0x8000_0000 {
        be32_at(s, i) - 0x1_0000_0000
    } else {
        be32_at(s, i)
    }
}

/// A random-access cursor over an owned byte vector.  Every multi-byte read is
/// big-endian; a read past the end fails and leaves the cursor where it was.
pub struct Cursor {
    data: Vec<u8>,
    pos: usize,
}

impl Cursor {
    /// The bytes the cursor ranges over.
    pub closed spec fn bytes(&self) -> Seq<u8> {
        self.data@
    }

    /// The current read position.
    pub closed spec fn position(&self) -> int {
        self.pos as int
    }

    /// Spec shorthand: `n` more bytes can be read.
    pub open spec fn can_read(&self, n: int) -> bool {
        self.position() + n <= self.bytes().len()
    }

    pub fn with_vec(data: Vec<u8>) -> (c: Cursor)
        ensures
            c.bytes() == data@,
            c.position() == 0,
    {
        Cursor { data, pos: 0 }
    }

    pub fn len(&self) -> (n: usize)
        ensures
            n == self.bytes().len(),
    {
        self.data.len()
    }

    pub fn get_pos(&self) -> (p: usize)
        ensures
            p == self.position(),
    {
        self.pos
    }

    pub fn set_pos(&mut self, p: usize)
        ensures
            final(self).bytes() == old(self).bytes(),
            final(self).position() == p,
    {
        self.pos = p;
    }

    /// Consumes the cursor and hands back the backing vector.
    pub fn deconstruct(self) -> (v: Vec<u8>)
        ensures
            v@ == self.bytes(),
    {
        self.data
    }

    pub fn read_u8(&mut self) -> (r: Option<u8>)
        ensures
            final(self).bytes() == old(self).bytes(),
            old(self).can_read(1) ==> {
                &&& r == Some(byte_at(old(self).bytes(), old(self).position()))
                &&& final(self).position() == old(self).position() + 1
            },
            !old(self).can_read(1) ==> r is None && final(self).position() == old(
                self,
            ).position(),
    {
        if self.pos < self.data.len() {
            let b = self.data[self.pos];
            self.pos = self.pos + 1;
            Some(b)
        } else {
            None
        }
    }

    pub fn read_u16(&mut self) -> (r: Option<u16>)
        ensures
            final(self).bytes() == old(self).bytes(),
            old(self).can_read(2) ==> {
                &&& r is Some
                &&& r.unwrap() == be16_at(old(self).bytes(), old(self).position())
                &&& final(self).position() == old(self).position() + 2
            },
            !old(self).can_read(2) ==> r is None && final(self).position() == old(
                self,
            ).position(),
    {
        if self.data.len() >= 2 && self.pos <= self.data.len() - 2 {
            let b0 = self.data[self.pos] as u16;
            let b1 = self.data[self.pos + 1] as u16;
            self.pos = self.pos + 2;
            Some(b0 * 0x100 + b1)
        } else {
            None
        }
    }

    pub fn read_u32(&mut self) -> (r: Option<u32>)
        ensures
            final(self).bytes() == old(self).bytes(),
            old(self).can_read(4) ==> {
                &&& r is Some
                &&& r.unwrap() == be32_at(old(self).bytes(), old(self).position())
                &&& final(self).position() == old(self).position() + 4
            },
            !old(self).can_read(4) ==> r is None && final(self).position() == old(
                self,
            ).position(),
    {
        if self.data.len() >= 4 && self.pos <= self.data.len() - 4 {
            let b0 = self.data[self.pos] as u32;
            let b1 = self.data[self.pos + 1] as u32;
            let b2 = self.data[self.pos + 2] as u32;
            let b3 = self.data[self.pos + 3] as u32;
            self.pos = self.pos + 4;
            Some(b0 * 0x1000000 + b1 * 0x10000 + b2 * 0x100 + b3)
        } else {
            None
        }
    }

    /// Reads the same four bytes as `read_u32`, as a two's-complement value.
    pub fn read_i32(&mut self) -> (r: Option<i32>)
        ensures
            final(self).bytes() == old(self).bytes(),
            old(self).can_read(4) ==> {
                &&& r is Some
                &&& r.unwrap() == bei32_at(old(self).bytes(), old(self).position())
                &&& final(self).position() == old(self).position() + 4
            },
            !old(self).can_read(4) ==> r is None && final(self).position() == old(
                self,
            ).position(),
    {
        match self.read_u32() {
            Some(v) => {
                let sv: i64 = if v >= 0x8000_0000 {
                    v as i64 - 0x1_0000_0000i64
                } else {
                    v as i64
                };
                Some(sv as i32)
            },
            None => None,
        }
    }

    /// Copies the next `n` bytes out and advances past them.
    pub fn read_bytes(&mut self, n: usize) -> (r: Option<Vec<u8>>)
        ensures
            final(self).bytes() == old(self).bytes(),
            old(self).can_read(n as int) ==> {
                &&& r is Some
                &&& r.unwrap()@ == old(self).bytes().subrange(
                    old(self).position(),
                    old(self).position() + n,
                )
                &&& final(self).position() == old(self).position() + n
            },
            !old(self).can_read(n as int) ==> r is None && final(self).position() == old(
                self,
            ).position(),
    {
        if self.pos <= self.data.len() && n <= self.data.len() - self.pos {
            let mut out: Vec<u8> = Vec::new();
            let mut i: usize = 0;
            while i < n
                invariant
                    i <= n,
                    self.pos + n <= self.data.len(),
                    out@ == self.data@.subrange(self.pos as int, self.pos + i),
                decreases n - i,
            {
                out.push(self.data[self.pos + i]);
                assert(out@ == self.data@.subrange(self.pos as int, self.pos + i + 1));
                i = i + 1;
            }
            self.pos = self.pos + n;
            Some(out)
        } else {
            None
        }
    }

    /// Everything from the current position to the end; leaves the cursor at
    /// the end.  A position already past the end yields nothing.
    pub fn read_remaining(&mut self) -> (r: Vec<u8>)
        ensures
            final(self).bytes() == old(self).bytes(),
            final(self).position() == old(self).bytes().len(),
            old(self).position() <= old(self).bytes().len() ==> r@ == old(self).bytes().subrange(
                old(self).position(),
                old(self).bytes().len() as int,
            ),
            old(self).position() > old(self).bytes().len() ==> r@ == Seq::<u8>::empty(),
    {
        if self.pos <= self.data.len() {
            let n = self.data.len() - self.pos;
            let r = self.read_bytes(n);
            match r {
                Some(v) => v,
                None => Vec::new(),
            }
        } else {
            self.pos = self.data.len();
            Vec::new()
        }
    }
}

} // verus!
