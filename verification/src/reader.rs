//! A cursor over a byte slice that reads big-endian numbers.

use vstd::prelude::*;

use crate::common::{spec_u16_be, spec_u32_be, spec_u64_be};
use crate::error::Error;

verus! {

/// Reads bytes from `data`, starting at `cur`.
pub struct Reader<'a> {
    pub data: &'a [u8],
    /// The index of the next byte to read.
    pub cur: usize,
}

impl<'a> Reader<'a> {
    /// The position is within the data.
    pub open spec fn wf(&self) -> bool {
        self.cur <= self.data@.len()
    }

    /// The bytes not read yet.
    pub open spec fn rest(&self) -> Seq<u8> {
        self.data@.subrange(self.cur as int, self.data@.len() as int)
    }

    /// `self` is `old` advanced by `n` bytes over the same data.
    pub open spec fn advanced(&self, old: Reader<'a>, n: int) -> bool {
        &&& self.data@ == old.data@
        &&& self.cur == old.cur + n
    }

    pub fn new(data: &'a [u8]) -> (r: Reader<'a>)
        ensures
            r.data@ == data@,
            r.cur == 0,
            r.wf(),
    {
        Reader { data, cur: 0 }
    }

    /// The index just past the last byte.
    pub fn end_addr(&self) -> (r: usize)
        ensures
            r == self.data@.len(),
    {
        self.data.len()
    }

    /// Succeeds exactly when `size` more bytes can be read.
    pub fn ensure_can_read(&self, size: usize) -> (r: Result<(), Error>)
        requires
            self.wf(),
        ensures
            r is Ok <==> size <= self.rest().len(),
            r is Err ==> r == Err::<(), Error>(Error::UnexpectedEof),
    {
        if size > self.data.len() - self.cur {
            Err(Error::UnexpectedEof)
        } else {
            Ok(())
        }
    }

    /// Skips `size` bytes; fails with `UnexpectedEof` when fewer remain.
    pub fn skip(&mut self, size: usize) -> (r: Result<(), Error>)
        requires
            old(self).wf(),
        ensures
            final(self).wf(),
            final(self).data == old(self).data,
            r is Ok <==> size <= old(self).rest().len(),
            r is Ok ==> final(self).advanced(*old(self), size as int),
            r is Err ==> r == Err::<(), Error>(Error::UnexpectedEof),
    {
        if size > self.data.len() - self.cur {
            return Err(Error::UnexpectedEof);
        }
        self.cur = self.cur + size;
        Ok(())
    }

    /// Takes the next `size` bytes.
    pub fn read_slice(&mut self, size: usize) -> (r: Result<&'a [u8], Error>)
        requires
            old(self).wf(),
        ensures
            final(self).wf(),
            final(self).data == old(self).data,
            r is Ok <==> size <= old(self).rest().len(),
            r matches Ok(s) ==> {
                &&& final(self).advanced(*old(self), size as int)
                &&& s@ == old(self).rest().subrange(0, size as int)
            },
            r is Err ==> r == Err::<&'a [u8], Error>(Error::UnexpectedEof),
    {
        if size > self.data.len() - self.cur {
            return Err(Error::UnexpectedEof);
        }
        let s = vstd::slice::slice_subrange(self.data, self.cur, self.cur + size);
        self.cur = self.cur + size;
        Ok(s)
    }

    /// The next byte, without consuming it.
    pub fn peek_u8(&self) -> (r: Result<u8, Error>)
        requires
            self.wf(),
        ensures
            r is Ok <==> 1 <= self.rest().len(),
            r matches Ok(b) ==> b == self.rest()[0],
            r is Err ==> r == Err::<u8, Error>(Error::UnexpectedEof),
    {
        if self.cur >= self.data.len() {
            return Err(Error::UnexpectedEof);
        }
        Ok(self.data[self.cur])
    }

    pub fn read_u8(&mut self) -> (r: Result<u8, Error>)
        requires
            old(self).wf(),
        ensures
            final(self).wf(),
            final(self).data == old(self).data,
            r is Ok <==> 1 <= old(self).rest().len(),
            r matches Ok(b) ==> b == old(self).rest()[0] && final(self).advanced(*old(self), 1),
            r is Err ==> r == Err::<u8, Error>(Error::UnexpectedEof),
    {
        if self.cur >= self.data.len() {
            return Err(Error::UnexpectedEof);
        }
        let b = self.data[self.cur];
        self.cur = self.cur + 1;
        Ok(b)
    }

    pub fn read_i8(&mut self) -> (r: Result<i8, Error>)
        requires
            old(self).wf(),
        ensures
            final(self).wf(),
            final(self).data == old(self).data,
            r is Ok <==> 1 <= old(self).rest().len(),
            r matches Ok(b) ==> b == old(self).rest()[0] as i8 && final(self).advanced(*old(self), 1),
            r is Err ==> r == Err::<i8, Error>(Error::UnexpectedEof),
    {
        let b = self.read_u8()?;
        Ok(b as i8)
    }

    pub fn read_u16(&mut self) -> (r: Result<u16, Error>)
        requires
            old(self).wf(),
        ensures
            final(self).wf(),
            final(self).data == old(self).data,
            r is Ok <==> 2 <= old(self).rest().len(),
            r matches Ok(v) ==> v == spec_u16_be(old(self).rest()) && final(self).advanced(*old(self), 2),
            r is Err ==> r == Err::<u16, Error>(Error::UnexpectedEof),
    {
        if 2 > self.data.len() - self.cur {
            return Err(Error::UnexpectedEof);
        }
        let a = self.data[self.cur] as u16;
        let b = self.data[self.cur + 1] as u16;
        self.cur = self.cur + 2;
        Ok(a * 0x100 + b)
    }

    pub fn read_i16(&mut self) -> (r: Result<i16, Error>)
        requires
            old(self).wf(),
        ensures
            final(self).wf(),
            final(self).data == old(self).data,
            r is Ok <==> 2 <= old(self).rest().len(),
            r matches Ok(v) ==> v == spec_u16_be(old(self).rest()) as i16 && final(self).advanced(*old(self), 2),
            r is Err ==> r == Err::<i16, Error>(Error::UnexpectedEof),
    {
        let v = self.read_u16()?;
        Ok(v as i16)
    }

    pub fn read_u32(&mut self) -> (r: Result<u32, Error>)
        requires
            old(self).wf(),
        ensures
            final(self).wf(),
            final(self).data == old(self).data,
            r is Ok <==> 4 <= old(self).rest().len(),
            r matches Ok(v) ==> v == spec_u32_be(old(self).rest()) && final(self).advanced(*old(self), 4),
            r is Err ==> r == Err::<u32, Error>(Error::UnexpectedEof),
    {
        if 4 > self.data.len() - self.cur {
            return Err(Error::UnexpectedEof);
        }
        let a = self.data[self.cur] as u32;
        let b = self.data[self.cur + 1] as u32;
        let c = self.data[self.cur + 2] as u32;
        let d = self.data[self.cur + 3] as u32;
        self.cur = self.cur + 4;
        Ok(a * 0x100_0000 + b * 0x1_0000 + c * 0x100 + d)
    }

    pub fn read_i32(&mut self) -> (r: Result<i32, Error>)
        requires
            old(self).wf(),
        ensures
            final(self).wf(),
            final(self).data == old(self).data,
            r is Ok <==> 4 <= old(self).rest().len(),
            r matches Ok(v) ==> v == spec_u32_be(old(self).rest()) as i32 && final(self).advanced(*old(self), 4),
            r is Err ==> r == Err::<i32, Error>(Error::UnexpectedEof),
    {
        let v = self.read_u32()?;
        Ok(v as i32)
    }

    pub fn read_u64(&mut self) -> (r: Result<u64, Error>)
        requires
            old(self).wf(),
        ensures
            final(self).wf(),
            final(self).data == old(self).data,
            r is Ok <==> 8 <= old(self).rest().len(),
            r matches Ok(v) ==> v == spec_u64_be(old(self).rest()) && final(self).advanced(*old(self), 8),
            r is Err ==> r == Err::<u64, Error>(Error::UnexpectedEof),
    {
        if 8 > self.data.len() - self.cur {
            return Err(Error::UnexpectedEof);
        }
        let ghost s = self.rest();
        let hi = self.read_u32();
        let lo = self.read_u32();
        match (hi, lo) {
            (Ok(hi), Ok(lo)) => {
                assert(s.subrange(4, 8) =~= s.subrange(4, s.len() as int).subrange(0, 4));
                Ok(hi as u64 * 0x1_0000_0000 + lo as u64)
            },
            _ => Err(Error::UnexpectedEof),
        }
    }

    pub fn read_i64(&mut self) -> (r: Result<i64, Error>)
        requires
            old(self).wf(),
        ensures
            final(self).wf(),
            final(self).data == old(self).data,
            r is Ok <==> 8 <= old(self).rest().len(),
            r matches Ok(v) ==> v == spec_u64_be(old(self).rest()) as i64 && final(self).advanced(*old(self), 8),
            r is Err ==> r == Err::<i64, Error>(Error::UnexpectedEof),
    {
        let v = self.read_u64()?;
        Ok(v as i64)
    }
}

/// `res` is what a reader that went from `old` to `new` produced, given
/// that the format says reading `old.rest()` gives `expected` (a value and
/// the number of bytes read, or an error).
pub open spec fn parsed_as<'a, T: View>(
    res: Result<T, Error>,
    expected: Result<(T::V, int), Error>,
    old: Reader<'a>,
    new: Reader<'a>,
) -> bool {
    match expected {
        Ok((m, k)) => {
            &&& res is Ok
            &&& res->Ok_0@ == m
            &&& new.advanced(old, k)
        },
        Err(e) => res == Err::<T, Error>(e),
    }
}

/// After advancing by `k`, the rest is the old rest without its first `k` bytes.
pub proof fn lemma_rest_advance<'a>(old: Reader<'a>, new: Reader<'a>, k: int)
    requires
        old.wf(),
        new.wf(),
        new.advanced(old, k),
        k >= 0,
    ensures
        0 <= k <= old.rest().len(),
        new.rest() == old.rest().subrange(k, old.rest().len() as int),
{
    assert(new.rest() =~= old.rest().subrange(k, old.rest().len() as int));
}

} // verus!
