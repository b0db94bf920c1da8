//! A sequential source of bytes with a cursor.

use crate::endian::{be_i32, be_u32, be_u64, read_i32, read_u32, read_u64};
use vstd::prelude::*;
use vstd::slice::{slice_subrange, slice_to_vec};

verus! {

/// A byte stream held in memory, read front to back.
///
/// A read that cannot be served in full leaves the cursor where it was.
pub struct ByteReader {
    data: Vec<u8>,
    pos: usize,
}

impl ByteReader {
    #[verifier::type_invariant]
    spec fn in_bounds(self) -> bool {
        self.pos <= self.data@.len()
    }

    /// All the bytes of the stream, read or not.
    pub closed spec fn stream(&self) -> Seq<u8> {
        self.data@
    }

    /// The number of bytes read so far.
    pub closed spec fn cursor(&self) -> int {
        self.pos as int
    }

    /// Whether `n` more bytes can be read.
    pub open spec fn has(&self, n: int) -> bool {
        self.cursor() + n <= self.stream().len()
    }

    /// The next `n` bytes.
    pub open spec fn next(&self, n: int) -> Seq<u8> {
        self.stream().subrange(self.cursor(), self.cursor() + n)
    }

    /// The cursor counts bytes from the start of the stream.
    pub proof fn lemma_cursor_counts(&self)
        ensures
            0 <= self.cursor(),
    {
    }

    /// A reader at the start of `data`.
    pub fn new(data: Vec<u8>) -> (r: Self)
        ensures
            r.stream() == data@,
            r.cursor() == 0,
    {
        ByteReader { data, pos: 0 }
    }

    /// The number of bytes read so far.
    pub fn position(&self) -> (p: usize)
        ensures
            p == self.cursor(),
            p <= self.stream().len(),
    {
        proof {
            use_type_invariant(self);
        }
        self.pos
    }

    /// The number of bytes not read yet.
    pub fn remaining(&self) -> (n: usize)
        ensures
            n == self.stream().len() - self.cursor(),
    {
        proof {
            use_type_invariant(self);
        }
        self.data.len() - self.pos
    }

    /// Reads exactly `n` bytes, or nothing where fewer are left.
    pub fn read_exact(&mut self, n: usize) -> (r: Option<Vec<u8>>)
        ensures
            final(self).stream() == old(self).stream(),
            match r {
                Some(bytes) => old(self).has(n as int) && bytes@ == old(self).next(n as int)
                    && final(self).cursor() == old(self).cursor() + n,
                None => !old(self).has(n as int) && final(self).cursor() == old(self).cursor(),
            },
    {
        proof {
            use_type_invariant(&*self);
        }
        if n > self.data.len() - self.pos {
            return None;
        }
        let bytes = slice_to_vec(slice_subrange(self.data.as_slice(), self.pos, self.pos + n));
        self.pos = self.pos + n;
        Some(bytes)
    }

    /// Reads one byte, or nothing at the end of the stream.
    pub fn read_u8(&mut self) -> (r: Option<u8>)
        ensures
            final(self).stream() == old(self).stream(),
            match r {
                Some(b) => old(self).has(1) && b == old(self).stream()[old(self).cursor()]
                    && final(self).cursor() == old(self).cursor() + 1,
                None => !old(self).has(1) && final(self).cursor() == old(self).cursor(),
            },
    {
        proof {
            use_type_invariant(&*self);
        }
        if self.pos >= self.data.len() {
            return None;
        }
        let b: u8 = self.data[self.pos];
        self.pos = self.pos + 1;
        Some(b)
    }

    /// Reads a big-endian unsigned 32-bit number, or nothing where fewer than
    /// four bytes are left.
    pub fn read_be_u32(&mut self) -> (r: Option<u32>)
        ensures
            final(self).stream() == old(self).stream(),
            match r {
                Some(v) => old(self).has(4) && v == be_u32(old(self).next(4))
                    && final(self).cursor() == old(self).cursor() + 4,
                None => !old(self).has(4) && final(self).cursor() == old(self).cursor(),
            },
    {
        proof {
            use_type_invariant(&*self);
        }
        if self.data.len() - self.pos < 4 {
            return None;
        }
        let v: u32 = read_u32(slice_subrange(self.data.as_slice(), self.pos, self.pos + 4));
        self.pos = self.pos + 4;
        Some(v)
    }

    /// Reads a big-endian signed 32-bit number, or nothing where fewer than
    /// four bytes are left.
    pub fn read_be_i32(&mut self) -> (r: Option<i32>)
        ensures
            final(self).stream() == old(self).stream(),
            match r {
                Some(v) => old(self).has(4) && v == be_i32(old(self).next(4))
                    && final(self).cursor() == old(self).cursor() + 4,
                None => !old(self).has(4) && final(self).cursor() == old(self).cursor(),
            },
    {
        proof {
            use_type_invariant(&*self);
        }
        if self.data.len() - self.pos < 4 {
            return None;
        }
        let v: i32 = read_i32(slice_subrange(self.data.as_slice(), self.pos, self.pos + 4));
        self.pos = self.pos + 4;
        Some(v)
    }

    /// Reads a big-endian unsigned 64-bit number, or nothing where fewer than
    /// eight bytes are left.
    pub fn read_be_u64(&mut self) -> (r: Option<u64>)
        ensures
            final(self).stream() == old(self).stream(),
            match r {
                Some(v) => old(self).has(8) && v == be_u64(old(self).next(8))
                    && final(self).cursor() == old(self).cursor() + 8,
                None => !old(self).has(8) && final(self).cursor() == old(self).cursor(),
            },
    {
        proof {
            use_type_invariant(&*self);
        }
        if self.data.len() - self.pos < 8 {
            return None;
        }
        let v: u64 = read_u64(slice_subrange(self.data.as_slice(), self.pos, self.pos + 8));
        self.pos = self.pos + 8;
        Some(v)
    }
}

} // verus!
