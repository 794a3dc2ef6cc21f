//! A cursor that reads big-endian values off the front of a byte slice.

use vstd::prelude::*;

use crate::common::{slice_u8_into_i8, spec_u16_be, spec_u32_be, spec_u64_be};
use crate::error::Error;
use crate::model::decode_i8s;
use crate::mutf8::Mutf8Str;
use crate::raw_list::RawList;

verus! {

/// A slice that shrinks from the front as values are read off it.
pub struct McCursor<'a> {
    slice: &'a [u8],
}

impl<'a> View for McCursor<'a> {
    type V = Seq<u8>;

    /// The bytes not read yet.
    closed spec fn view(&self) -> Seq<u8> {
        self.slice@
    }
}

/// `s` without its first `n` bytes.
pub open spec fn skipped(s: Seq<u8>, n: int) -> Seq<u8> {
    s.subrange(n, s.len() as int)
}

/// A signed big-endian `i32` count followed by that many elements of `width`
/// bytes: the elements' bytes and the number of bytes taken.  A negative
/// count never fits, so it ends the data early.
pub open spec fn parse_i32_prefixed(s: Seq<u8>, width: nat) -> Result<(Seq<u8>, int), Error> {
    if s.len() < 4 {
        Err(Error::UnexpectedEof)
    } else if (spec_u32_be(s) as i32) < 0 {
        Err(Error::UnexpectedEof)
    } else {
        let n = spec_u32_be(s) as nat * width;
        if s.len() - 4 < n {
            Err(Error::UnexpectedEof)
        } else {
            Ok((s.subrange(4, 4 + n as int), 4 + n as int))
        }
    }
}

/// A big-endian `u16` count followed by that many elements of `width` bytes.
pub open spec fn parse_u16_prefixed(s: Seq<u8>, width: nat) -> Result<(Seq<u8>, int), Error> {
    if s.len() < 2 {
        Err(Error::UnexpectedEof)
    } else {
        let n = spec_u16_be(s) as nat * width;
        if s.len() - 2 < n {
            Err(Error::UnexpectedEof)
        } else {
            Ok((s.subrange(2, 2 + n as int), 2 + n as int))
        }
    }
}

/// What is left of `s` after a prefixed read failed: the count, when it
/// could be read, has been consumed.
pub open spec fn left_after_failed_prefix(s: Seq<u8>, prefix: int) -> Seq<u8> {
    if s.len() < prefix {
        s
    } else {
        skipped(s, prefix)
    }
}

/// `r` and the cursor's remaining bytes are what a prefixed read of `old`
/// with the given outcome and count width leaves.
pub open spec fn prefixed_read_as(
    r: Result<Seq<u8>, Error>,
    expected: Result<(Seq<u8>, int), Error>,
    old: Seq<u8>,
    new: Seq<u8>,
    prefix: int,
) -> bool {
    match expected {
        Ok((a, k)) => r == Ok::<Seq<u8>, Error>(a) && new == skipped(old, k),
        Err(e) => r == Err::<Seq<u8>, Error>(e) && new == left_after_failed_prefix(old, prefix),
    }
}

/// The bytes of a read slice, or its error.
pub open spec fn bytes_of(r: Result<&[u8], Error>) -> Result<Seq<u8>, Error> {
    match r {
        Ok(s) => Ok(s@),
        Err(e) => Err(e),
    }
}

impl<'a> McCursor<'a> {
    pub fn new(slice: &'a [u8]) -> (r: Self)
        ensures
            r@ == slice@,
    {
        McCursor { slice }
    }

    /// Takes the next `n` bytes; fails with `UnexpectedEof`, taking nothing,
    /// when fewer remain.
    fn try_read_exact(&mut self, n: usize) -> (r: Result<&'a [u8], Error>)
        ensures
            r is Ok <==> n <= old(self)@.len(),
            r matches Ok(a) ==> a@ == old(self)@.subrange(0, n as int) && final(self)@ == skipped(
                old(self)@,
                n as int,
            ),
            r is Err ==> r == Err::<&'a [u8], Error>(Error::UnexpectedEof) && final(self)@ == old(
                self,
            )@,
    {
        if n > self.slice.len() {
            return Err(Error::UnexpectedEof);
        }
        let (a, b) = self.slice.split_at(n);
        self.slice = b;
        Ok(a)
    }

    /// Skips `n` bytes; fails with `UnexpectedEof`, skipping nothing, when
    /// fewer remain.
    pub fn advance(&mut self, n: usize) -> (r: Result<(), Error>)
        ensures
            r is Ok <==> n <= old(self)@.len(),
            r is Ok ==> final(self)@ == skipped(old(self)@, n as int),
            r is Err ==> r == Err::<(), Error>(Error::UnexpectedEof) && final(self)@ == old(self)@,
    {
        if n > self.slice.len() {
            return Err(Error::UnexpectedEof);
        }
        self.slice = vstd::slice::slice_subrange(self.slice, n, self.slice.len());
        Ok(())
    }

    pub fn read_i8(&mut self) -> (r: Result<i8, Error>)
        ensures
            r is Ok <==> 1 <= old(self)@.len(),
            r matches Ok(v) ==> v == old(self)@[0] as i8 && final(self)@ == skipped(old(self)@, 1),
            r is Err ==> r == Err::<i8, Error>(Error::UnexpectedEof) && final(self)@ == old(self)@,
    {
        let a = self.try_read_exact(1)?;
        Ok(a[0] as i8)
    }

    pub fn read_u8(&mut self) -> (r: Result<u8, Error>)
        ensures
            r is Ok <==> 1 <= old(self)@.len(),
            r matches Ok(v) ==> v == old(self)@[0] && final(self)@ == skipped(old(self)@, 1),
            r is Err ==> r == Err::<u8, Error>(Error::UnexpectedEof) && final(self)@ == old(self)@,
    {
        let a = self.try_read_exact(1)?;
        Ok(a[0])
    }

    pub fn read_i16(&mut self) -> (r: Result<i16, Error>)
        ensures
            r is Ok <==> 2 <= old(self)@.len(),
            r matches Ok(v) ==> v == spec_u16_be(old(self)@) as i16 && final(self)@ == skipped(
                old(self)@,
                2,
            ),
            r is Err ==> r == Err::<i16, Error>(Error::UnexpectedEof) && final(self)@ == old(self)@,
    {
        let a = self.try_read_exact(2)?;
        let v = a[0] as u16 * 0x100 + a[1] as u16;
        Ok(v as i16)
    }

    pub fn read_u32(&mut self) -> (r: Result<u32, Error>)
        ensures
            r is Ok <==> 4 <= old(self)@.len(),
            r matches Ok(v) ==> v == spec_u32_be(old(self)@) && final(self)@ == skipped(
                old(self)@,
                4,
            ),
            r is Err ==> r == Err::<u32, Error>(Error::UnexpectedEof) && final(self)@ == old(self)@,
    {
        let a = self.try_read_exact(4)?;
        Ok(a[0] as u32 * 0x100_0000 + a[1] as u32 * 0x1_0000 + a[2] as u32 * 0x100 + a[3] as u32)
    }

    pub fn read_i32(&mut self) -> (r: Result<i32, Error>)
        ensures
            r is Ok <==> 4 <= old(self)@.len(),
            r matches Ok(v) ==> v == spec_u32_be(old(self)@) as i32 && final(self)@ == skipped(
                old(self)@,
                4,
            ),
            r is Err ==> r == Err::<i32, Error>(Error::UnexpectedEof) && final(self)@ == old(self)@,
    {
        let v = self.read_u32()?;
        Ok(v as i32)
    }

    pub fn read_i64(&mut self) -> (r: Result<i64, Error>)
        ensures
            r is Ok <==> 8 <= old(self)@.len(),
            r matches Ok(v) ==> v == spec_u64_be(old(self)@) as i64 && final(self)@ == skipped(
                old(self)@,
                8,
            ),
            r is Err ==> r == Err::<i64, Error>(Error::UnexpectedEof) && final(self)@ == old(self)@,
    {
        let a = self.try_read_exact(8)?;
        let hi = a[0] as u32 * 0x100_0000 + a[1] as u32 * 0x1_0000 + a[2] as u32 * 0x100
            + a[3] as u32;
        let lo = a[4] as u32 * 0x100_0000 + a[5] as u32 * 0x1_0000 + a[6] as u32 * 0x100
            + a[7] as u32;
        proof {
            assert(a@.subrange(4, 8) =~= old(self)@.subrange(4, 8));
        }
        Ok((hi as u64 * 0x1_0000_0000 + lo as u64) as i64)
    }

    /// Reads a signed `i32` element count, then that many elements of
    /// `width` bytes.
    pub fn read_with_u32_length(&mut self, width: usize) -> (r: Result<&'a [u8], Error>)
        requires
            width <= 8,
        ensures
            prefixed_read_as(
                bytes_of(r),
                parse_i32_prefixed(old(self)@, width as nat),
                old(self)@,
                final(self)@,
                4,
            ),
    {
        let length = self.read_i32()?;
        proof {
            let x = spec_u32_be(old(self)@);
            assert(0 <= (x as i32) ==> (x as i32) as u64 == x as u64) by (bit_vector);
        }
        if length < 0 {
            return Err(Error::UnexpectedEof);
        }
        assert(length as u64 * width as u64 <= 0x7fff_ffff * 8) by (nonlinear_arith)
            requires
                0 <= length,
                width <= 8,
        ;
        let length_in_bytes = length as u64 * width as u64;
        if (self.slice.len() as u64) < length_in_bytes {
            return Err(Error::UnexpectedEof);
        }
        let r = self.try_read_exact(length_in_bytes as usize);
        proof {
            let s = old(self)@;
            assert(skipped(s, 4).subrange(0, length_in_bytes as int) =~= s.subrange(
                4,
                4 + length_in_bytes as int,
            ));
            assert(skipped(skipped(s, 4), length_in_bytes as int) =~= skipped(
                s,
                4 + length_in_bytes as int,
            ));
        }
        r
    }

    /// Reads a `u16` element count, then that many elements of `width` bytes.
    pub fn read_with_u16_length(&mut self, width: usize) -> (r: Result<&'a [u8], Error>)
        requires
            width <= 8,
        ensures
            prefixed_read_as(
                bytes_of(r),
                parse_u16_prefixed(old(self)@, width as nat),
                old(self)@,
                final(self)@,
                2,
            ),
    {
        let length = self.read_i16()? as u16;
        proof {
            let x = spec_u16_be(old(self)@);
            assert((x as i16) as u16 == x) by (bit_vector);
        }
        assert(length as usize * width <= 0xffff * 8) by (nonlinear_arith)
            requires
                width <= 8,
        ;
        let length_in_bytes = length as usize * width;
        if self.slice.len() < length_in_bytes {
            return Err(Error::UnexpectedEof);
        }
        let r = self.try_read_exact(length_in_bytes);
        proof {
            let s = old(self)@;
            assert(skipped(s, 2).subrange(0, length_in_bytes as int) =~= s.subrange(
                2,
                2 + length_in_bytes as int,
            ));
            assert(skipped(skipped(s, 2), length_in_bytes as int) =~= skipped(
                s,
                2 + length_in_bytes as int,
            ));
        }
        r
    }

    /// Reads a string: its `u16` byte length, then its bytes.
    pub fn read_string(&mut self) -> (r: Result<Mutf8Str<'a>, Error>)
        ensures
            match parse_u16_prefixed(old(self)@, 1) {
                Ok((a, k)) => r matches Ok(m) && m@ == a && final(self)@ == skipped(old(self)@, k),
                Err(e) => r == Err::<Mutf8Str<'a>, Error>(e) && final(self)@
                    == left_after_failed_prefix(old(self)@, 2),
            },
    {
        let data = self.read_with_u16_length(1)?;
        Ok(Mutf8Str::from_slice(data))
    }

    /// Reads an int array: its count, then its big-endian elements.
    pub fn read_int_array(&mut self) -> (r: Result<RawList<'a, i32>, Error>)
        requires
            old(self)@.len() <= u32::MAX,
        ensures
            match parse_i32_prefixed(old(self)@, 4) {
                Ok((a, k)) => r matches Ok(l) && l@ == a && l.wf() && final(self)@ == skipped(
                    old(self)@,
                    k,
                ),
                Err(e) => r is Err && r->Err_0 == e && final(self)@ == left_after_failed_prefix(
                    old(self)@,
                    4,
                ),
            },
    {
        let array_bytes = self.read_with_u32_length(4)?;
        Ok(RawList::new_from_slice(array_bytes))
    }

    /// Reads a long array: its count, then its big-endian elements.
    pub fn read_long_array(&mut self) -> (r: Result<RawList<'a, i64>, Error>)
        requires
            old(self)@.len() <= u32::MAX,
        ensures
            match parse_i32_prefixed(old(self)@, 8) {
                Ok((a, k)) => r matches Ok(l) && l@ == a && l.wf() && final(self)@ == skipped(
                    old(self)@,
                    k,
                ),
                Err(e) => r is Err && r->Err_0 == e && final(self)@ == left_after_failed_prefix(
                    old(self)@,
                    4,
                ),
            },
    {
        let array_bytes = self.read_with_u32_length(8)?;
        Ok(RawList::new_from_slice(array_bytes))
    }

    /// Reads a byte array: its count, then its bytes.
    pub fn read_u8_array(&mut self) -> (r: Result<&'a [u8], Error>)
        ensures
            prefixed_read_as(
                bytes_of(r),
                parse_i32_prefixed(old(self)@, 1),
                old(self)@,
                final(self)@,
                4,
            ),
    {
        self.read_with_u32_length(1)
    }

    /// Reads a byte array as signed bytes.
    pub fn read_i8_array(&mut self) -> (r: Result<Vec<i8>, Error>)
        ensures
            match parse_i32_prefixed(old(self)@, 1) {
                Ok((a, k)) => r matches Ok(v) && v@ == decode_i8s(a) && final(self)@ == skipped(
                    old(self)@,
                    k,
                ),
                Err(e) => r == Err::<Vec<i8>, Error>(e) && final(self)@ == left_after_failed_prefix(
                    old(self)@,
                    4,
                ),
            },
    {
        let bytes = self.read_u8_array()?;
        Ok(slice_u8_into_i8(bytes))
    }
}

} // verus!
