use vstd::prelude::*;
use vstd::slice::{slice_index_get, slice_subrange, slice_to_vec};

use crate::error::TlsError;
use crate::wire::{dec_bytes, dec_u16, dec_u24, dec_u8};

verus! {

/// A read cursor over a borrowed byte region.
///
/// Every read is bounds-checked and all-or-nothing: it either consumes
/// exactly the requested width and advances the cursor by that much, or
/// fails without advancing. The cursor never passes the end of the region.
pub struct ParseBuffer<'a> {
    data: &'a [u8],
    pos: usize,
}

impl<'a> ParseBuffer<'a> {
    /// The whole byte region under the cursor.
    pub closed spec fn bytes(&self) -> Seq<u8> {
        self.data@
    }

    /// The cursor position.
    pub closed spec fn cursor(&self) -> int {
        self.pos as int
    }

    pub closed spec fn wf(&self) -> bool {
        self.pos <= self.data@.len()
    }

    pub fn new(data: &'a [u8]) -> (r: ParseBuffer<'a>)
        ensures
            r.wf(),
            r.bytes() == data@,
            r.cursor() == 0,
    {
        ParseBuffer { data, pos: 0 }
    }

    /// The cursor position, as a count of bytes consumed.
    pub fn position(&self) -> (r: usize)
        ensures
            r == self.cursor(),
    {
        self.pos
    }

    /// How many bytes remain past the cursor.
    pub fn remaining(&self) -> (r: usize)
        requires
            self.wf(),
        ensures
            r == self.bytes().len() - self.cursor(),
            self.bytes().len() <= usize::MAX as int,
    {
        self.data.len() - self.pos
    }

    /// Consumes exactly 1 byte, or fails without advancing.
    pub fn read_u8(&mut self) -> (r: Result<u8, TlsError>)
        requires
            old(self).wf(),
        ensures
            final(self).wf(),
            final(self).bytes() == old(self).bytes(),
            match r {
                Ok(v) => dec_u8(final(self).bytes(), old(self).cursor()) == Some((v, final(self).cursor())),
                Err(e) => {
                    &&& e == TlsError::InvalidLength
                    &&& dec_u8(final(self).bytes(), old(self).cursor()) is None
                    &&& final(self).cursor() == old(self).cursor()
                },
            },
    {
        if self.data.len() - self.pos >= 1 {
            let b = *slice_index_get(self.data, self.pos);
            self.pos = self.pos + 1;
            Ok(b)
        } else {
            Err(TlsError::InvalidLength)
        }
    }

    /// Consumes exactly 2 bytes big-endian, or fails without advancing.
    pub fn read_u16(&mut self) -> (r: Result<u16, TlsError>)
        requires
            old(self).wf(),
        ensures
            final(self).wf(),
            final(self).bytes() == old(self).bytes(),
            match r {
                Ok(v) => dec_u16(final(self).bytes(), old(self).cursor()) == Some((v, final(self).cursor())),
                Err(e) => {
                    &&& e == TlsError::InvalidLength
                    &&& dec_u16(final(self).bytes(), old(self).cursor()) is None
                    &&& final(self).cursor() == old(self).cursor()
                },
            },
    {
        if self.data.len() - self.pos >= 2 {
            let b0 = *slice_index_get(self.data, self.pos);
            let b1 = *slice_index_get(self.data, self.pos + 1);
            self.pos = self.pos + 2;
            Ok((b0 as u16) * 256 + (b1 as u16))
        } else {
            Err(TlsError::InvalidLength)
        }
    }

    /// Consumes exactly 3 bytes big-endian, or fails without advancing.
    pub fn read_u24(&mut self) -> (r: Result<u32, TlsError>)
        requires
            old(self).wf(),
        ensures
            final(self).wf(),
            final(self).bytes() == old(self).bytes(),
            match r {
                Ok(v) => dec_u24(final(self).bytes(), old(self).cursor()) == Some((v, final(self).cursor())),
                Err(e) => {
                    &&& e == TlsError::InvalidLength
                    &&& dec_u24(final(self).bytes(), old(self).cursor()) is None
                    &&& final(self).cursor() == old(self).cursor()
                },
            },
    {
        if self.data.len() - self.pos >= 3 {
            let b0 = *slice_index_get(self.data, self.pos);
            let b1 = *slice_index_get(self.data, self.pos + 1);
            let b2 = *slice_index_get(self.data, self.pos + 2);
            self.pos = self.pos + 3;
            Ok((b0 as u32) * 0x10000 + (b1 as u32) * 256 + (b2 as u32))
        } else {
            Err(TlsError::InvalidLength)
        }
    }

    /// Consumes exactly `n` bytes into an owned copy, or fails without
    /// advancing.
    pub fn read_slice(&mut self, n: usize) -> (r: Result<Vec<u8>, TlsError>)
        requires
            old(self).wf(),
        ensures
            final(self).wf(),
            final(self).bytes() == old(self).bytes(),
            match r {
                Ok(v) => dec_bytes(final(self).bytes(), old(self).cursor(), n as int) == Some(
                    (v@, final(self).cursor()),
                ),
                Err(e) => {
                    &&& e == TlsError::InvalidLength
                    &&& dec_bytes(final(self).bytes(), old(self).cursor(), n as int) is None
                    &&& final(self).cursor() == old(self).cursor()
                },
            },
    {
        if self.data.len() - self.pos >= n {
            let s = slice_subrange(self.data, self.pos, self.pos + n);
            self.pos = self.pos + n;
            Ok(slice_to_vec(s))
        } else {
            Err(TlsError::InvalidLength)
        }
    }
}

} // verus!
