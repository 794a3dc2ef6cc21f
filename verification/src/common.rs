//! Tag ids, limits, and the big-endian encodings shared by every NBT variant.

use vstd::prelude::*;

use crate::error::Error;
use crate::model::{lemma_prepend_push, parse_string, parse_string_seq, parse_u32_prefixed, parse_u32_prefixed_seq, prepend, decode_i8s, encode_i16s, encode_i32s, encode_i64s, encode_i8s, encode_u32s, encode_u64s, ser_string};
use crate::mutf8::Mutf8Str;
use crate::raw_list::RawList;
use crate::reader::{lemma_rest_advance, parsed_as, Reader};

verus! {

pub const END_ID: u8 = 0;
pub const BYTE_ID: u8 = 1;
pub const SHORT_ID: u8 = 2;
pub const INT_ID: u8 = 3;
pub const LONG_ID: u8 = 4;
pub const FLOAT_ID: u8 = 5;
pub const DOUBLE_ID: u8 = 6;
pub const BYTE_ARRAY_ID: u8 = 7;
pub const STRING_ID: u8 = 8;
pub const LIST_ID: u8 = 9;
pub const COMPOUND_ID: u8 = 10;
pub const INT_ARRAY_ID: u8 = 11;
pub const LONG_ARRAY_ID: u8 = 12;

/// The deepest nesting of compounds and lists of lists/compounds accepted.
pub const MAX_DEPTH: usize = 512;

/// The big-endian value of the first two bytes of `s`.
pub open spec fn spec_u16_be(s: Seq<u8>) -> u16 {
    (s[0] as int * 0x100 + s[1] as int) as u16
}

/// The big-endian value of the first four bytes of `s`.
pub open spec fn spec_u32_be(s: Seq<u8>) -> u32 {
    (s[0] as int * 0x100_0000 + s[1] as int * 0x1_0000 + s[2] as int * 0x100 + s[3] as int) as u32
}

/// The big-endian value of the first eight bytes of `s`.
pub open spec fn spec_u64_be(s: Seq<u8>) -> u64 {
    (spec_u32_be(s) as int * 0x1_0000_0000 + spec_u32_be(s.subrange(4, 8)) as int) as u64
}

/// The two big-endian bytes of `x`.
pub open spec fn spec_u16_to_be(x: u16) -> Seq<u8> {
    seq![(x / 0x100) as u8, (x % 0x100) as u8]
}

/// The four big-endian bytes of `x`.
pub open spec fn spec_u32_to_be(x: u32) -> Seq<u8> {
    seq![
        (x / 0x100_0000) as u8,
        ((x / 0x1_0000) % 0x100) as u8,
        ((x / 0x100) % 0x100) as u8,
        (x % 0x100) as u8,
    ]
}

/// The eight big-endian bytes of `x`.
pub open spec fn spec_u64_to_be(x: u64) -> Seq<u8> {
    spec_u32_to_be((x / 0x1_0000_0000) as u32) + spec_u32_to_be((x % 0x1_0000_0000) as u32)
}

/// Decoding the encoding of a `u16` gives it back.
pub proof fn lemma_u16_be_roundtrip(x: u16)
    ensures
        spec_u16_to_be(x).len() == 2,
        spec_u16_be(spec_u16_to_be(x)) == x,
{
}

/// Decoding the encoding of a `u32` gives it back.
pub proof fn lemma_u32_be_roundtrip(x: u32)
    ensures
        spec_u32_to_be(x).len() == 4,
        spec_u32_be(spec_u32_to_be(x)) == x,
{
    let s = spec_u32_to_be(x);
    assert(x == (x / 0x100_0000) * 0x100_0000 + ((x / 0x1_0000) % 0x100) * 0x1_0000
        + ((x / 0x100) % 0x100) * 0x100 + x % 0x100) by (nonlinear_arith);
    assert(s[0] as int == x / 0x100_0000);
    assert(s[1] as int == (x / 0x1_0000) % 0x100);
    assert(s[2] as int == (x / 0x100) % 0x100);
    assert(s[3] as int == x % 0x100);
}

/// Decoding the encoding of a `u64` gives it back.
pub proof fn lemma_u64_be_roundtrip(x: u64)
    ensures
        spec_u64_to_be(x).len() == 8,
        spec_u64_be(spec_u64_to_be(x)) == x,
{
    let hi = (x / 0x1_0000_0000) as u32;
    let lo = (x % 0x1_0000_0000) as u32;
    lemma_u32_be_roundtrip(hi);
    lemma_u32_be_roundtrip(lo);
    let s = spec_u64_to_be(x);
    assert(s.subrange(0, 4) =~= spec_u32_to_be(hi));
    assert(s.subrange(4, 8) =~= spec_u32_to_be(lo));
    assert(spec_u32_be(s) == spec_u32_be(s.subrange(0, 4)));
}

/// Appends bytes to `data`.
pub fn extend_bytes(data: &mut Vec<u8>, bytes: &[u8])
    ensures
        final(data)@ == old(data)@ + bytes@,
{
    let ghost start = data@;
    let mut i: usize = 0;
    while i < bytes.len()
        invariant
            i <= bytes@.len(),
            data@ == start + bytes@.subrange(0, i as int),
        decreases bytes@.len() - i,
    {
        data.push(bytes[i]);
        i = i + 1;
        assert(data@ =~= start + bytes@.subrange(0, i as int));
    }
    assert(bytes@.subrange(0, bytes@.len() as int) =~= bytes@);
}

pub fn write_u16(data: &mut Vec<u8>, value: u16)
    ensures
        final(data)@ == old(data)@ + spec_u16_to_be(value),
{
    data.push((value / 0x100) as u8);
    data.push((value % 0x100) as u8);
    assert(data@ =~= old(data)@ + spec_u16_to_be(value));
}

pub fn write_u32(data: &mut Vec<u8>, value: u32)
    ensures
        final(data)@ == old(data)@ + spec_u32_to_be(value),
{
    data.push((value / 0x100_0000) as u8);
    data.push(((value / 0x1_0000) % 0x100) as u8);
    data.push(((value / 0x100) % 0x100) as u8);
    data.push((value % 0x100) as u8);
    assert(data@ =~= old(data)@ + spec_u32_to_be(value));
}

pub fn write_i32(data: &mut Vec<u8>, value: i32)
    ensures
        final(data)@ == old(data)@ + spec_u32_to_be(value as u32),
{
    write_u32(data, value as u32);
}

pub fn write_u64(data: &mut Vec<u8>, value: u64)
    ensures
        final(data)@ == old(data)@ + spec_u64_to_be(value),
{
    write_u32(data, (value / 0x1_0000_0000) as u32);
    write_u32(data, (value % 0x1_0000_0000) as u32);
    assert(data@ =~= old(data)@ + spec_u64_to_be(value));
}

pub fn write_i64(data: &mut Vec<u8>, value: i64)
    ensures
        final(data)@ == old(data)@ + spec_u64_to_be(value as u64),
{
    write_u64(data, value as u64);
}

/// Writes a string's `u16` length, then its bytes.
pub fn write_string(data: &mut Vec<u8>, value: Mutf8Str)
    ensures
        final(data)@ == old(data)@ + ser_string(value@),
{
    write_u16(data, value.len() as u16);
    extend_bytes(data, value.as_bytes());
    assert(data@ =~= old(data)@ + ser_string(value@));
}

/// Writes `count` as a `u32`, then the bytes.
pub fn write_with_u32_length(data: &mut Vec<u8>, count: usize, bytes: &[u8])
    ensures
        final(data)@ == old(data)@ + spec_u32_to_be(count as u32) + bytes@,
{
    write_u32(data, count as u32);
    extend_bytes(data, bytes);
    assert(data@ =~= old(data)@ + spec_u32_to_be(count as u32) + bytes@);
}

pub fn write_i8_array(data: &mut Vec<u8>, value: &[i8])
    ensures
        final(data)@ == old(data)@ + encode_i8s(value@),
{
    let ghost start = data@;
    let mut i: usize = 0;
    while i < value.len()
        invariant
            i <= value@.len(),
            data@ == start + encode_i8s(value@.subrange(0, i as int)),
        decreases value@.len() - i,
    {
        data.push(value[i] as u8);
        i = i + 1;
        assert(data@ =~= start + encode_i8s(value@.subrange(0, i as int)));
    }
    assert(value@.subrange(0, value@.len() as int) =~= value@);
}

pub fn write_i16_array(data: &mut Vec<u8>, value: &[i16])
    ensures
        final(data)@ == old(data)@ + encode_i16s(value@),
{
    let ghost start = data@;
    let mut i: usize = 0;
    while i < value.len()
        invariant
            i <= value@.len(),
            data@ == start + encode_i16s(value@.subrange(0, i as int)),
        decreases value@.len() - i,
    {
        write_u16(data, value[i] as u16);
        i = i + 1;
        assert(data@ =~= start + encode_i16s(value@.subrange(0, i as int)));
    }
    assert(value@.subrange(0, value@.len() as int) =~= value@);
}

pub fn write_u32_array(data: &mut Vec<u8>, value: &[u32])
    ensures
        final(data)@ == old(data)@ + encode_u32s(value@),
{
    let ghost start = data@;
    let mut i: usize = 0;
    while i < value.len()
        invariant
            i <= value@.len(),
            data@ == start + encode_u32s(value@.subrange(0, i as int)),
        decreases value@.len() - i,
    {
        write_u32(data, value[i]);
        i = i + 1;
        assert(data@ =~= start + encode_u32s(value@.subrange(0, i as int)));
    }
    assert(value@.subrange(0, value@.len() as int) =~= value@);
}

pub fn write_i32_array(data: &mut Vec<u8>, value: &[i32])
    ensures
        final(data)@ == old(data)@ + encode_i32s(value@),
{
    let ghost start = data@;
    let mut i: usize = 0;
    while i < value.len()
        invariant
            i <= value@.len(),
            data@ == start + encode_i32s(value@.subrange(0, i as int)),
        decreases value@.len() - i,
    {
        write_u32(data, value[i] as u32);
        i = i + 1;
        assert(data@ =~= start + encode_i32s(value@.subrange(0, i as int)));
    }
    assert(value@.subrange(0, value@.len() as int) =~= value@);
}

pub fn write_u64_array(data: &mut Vec<u8>, value: &[u64])
    ensures
        final(data)@ == old(data)@ + encode_u64s(value@),
{
    let ghost start = data@;
    let mut i: usize = 0;
    while i < value.len()
        invariant
            i <= value@.len(),
            data@ == start + encode_u64s(value@.subrange(0, i as int)),
        decreases value@.len() - i,
    {
        write_u64(data, value[i]);
        i = i + 1;
        assert(data@ =~= start + encode_u64s(value@.subrange(0, i as int)));
    }
    assert(value@.subrange(0, value@.len() as int) =~= value@);
}

pub fn write_i64_array(data: &mut Vec<u8>, value: &[i64])
    ensures
        final(data)@ == old(data)@ + encode_i64s(value@),
{
    let ghost start = data@;
    let mut i: usize = 0;
    while i < value.len()
        invariant
            i <= value@.len(),
            data@ == start + encode_i64s(value@.subrange(0, i as int)),
        decreases value@.len() - i,
    {
        write_u64(data, value[i] as u64);
        i = i + 1;
        assert(data@ =~= start + encode_i64s(value@.subrange(0, i as int)));
    }
    assert(value@.subrange(0, value@.len() as int) =~= value@);
}

/// Reads a `u32` element count, then that many elements of `width` bytes.
pub fn read_with_u32_length<'a>(data: &mut Reader<'a>, width: usize) -> (r: Result<&'a [u8], Error>)
    requires
        old(data).wf(),
        width <= 8,
    ensures
        final(data).wf(),
        final(data).data == old(data).data,
        parsed_as(r, parse_u32_prefixed(old(data).rest(), width as nat), *old(data), *final(data)),
{
    let n = data.read_u32()?;
    assert(n as u64 * width as u64 <= 0xffff_ffff * 8) by (nonlinear_arith)
        requires
            width <= 8,
    ;
    let len = n as u64 * width as u64;
    proof {
        lemma_rest_advance(*old(data), *data, 4);
    }
    if len > (data.data.len() - data.cur) as u64 {
        return Err(Error::UnexpectedEof);
    }
    let r = data.read_slice(len as usize);
    proof {
        assert(old(data).rest().subrange(4, 4 + len as int) =~= old(data).rest().subrange(4, old(data).rest().len() as int).subrange(0, len as int));
    }
    r
}

/// Reads a `u16` element count, then that many elements of `width` bytes.
pub fn read_with_u16_length<'a>(data: &mut Reader<'a>, width: usize) -> (r: Result<&'a [u8], Error>)
    requires
        old(data).wf(),
        width == 1,
    ensures
        final(data).wf(),
        final(data).data == old(data).data,
        parsed_as(r, parse_string(old(data).rest()), *old(data), *final(data)),
{
    let n = data.read_u16()?;
    proof {
        lemma_rest_advance(*old(data), *data, 2);
    }
    let len = n as usize * width;
    if len > data.data.len() - data.cur {
        return Err(Error::UnexpectedEof);
    }
    let r = data.read_slice(len);
    proof {
        assert(old(data).rest().subrange(2, 2 + len as int) =~= old(data).rest().subrange(2, old(data).rest().len() as int).subrange(0, len as int));
    }
    r
}

/// Reads a string: its `u16` byte length, then its bytes.
pub fn read_string<'a>(data: &mut Reader<'a>) -> (r: Result<Mutf8Str<'a>, Error>)
    requires
        old(data).wf(),
    ensures
        final(data).wf(),
        final(data).data == old(data).data,
        parsed_as(r, parse_string(old(data).rest()), *old(data), *final(data)),
{
    let bytes = read_with_u16_length(data, 1)?;
    Ok(Mutf8Str::from_slice(bytes))
}

/// Reads a byte array: its `u32` length, then its bytes.
pub fn read_u8_array<'a>(data: &mut Reader<'a>) -> (r: Result<&'a [u8], Error>)
    requires
        old(data).wf(),
    ensures
        final(data).wf(),
        final(data).data == old(data).data,
        parsed_as(r, parse_u32_prefixed(old(data).rest(), 1), *old(data), *final(data)),
{
    read_with_u32_length(data, 1)
}

/// Reads a byte array as signed bytes.
pub fn read_i8_array<'a>(data: &mut Reader<'a>) -> (r: Result<Vec<i8>, Error>)
    requires
        old(data).wf(),
    ensures
        final(data).wf(),
        final(data).data == old(data).data,
        match parse_u32_prefixed(old(data).rest(), 1) {
            Ok((a, k)) => r matches Ok(v) && v@ == decode_i8s(a) && final(data).advanced(*old(data), k),
            Err(e) => r == Err::<Vec<i8>, Error>(e),
        },
{
    let bytes = read_with_u32_length(data, 1)?;
    Ok(slice_u8_into_i8(bytes))
}

/// The bytes, each reinterpreted as a signed byte.
pub fn slice_u8_into_i8(s: &[u8]) -> (r: Vec<i8>)
    ensures
        r@ == decode_i8s(s@),
{
    let mut v: Vec<i8> = Vec::with_capacity(s.len());
    let mut i: usize = 0;
    while i < s.len()
        invariant
            i <= s@.len(),
            v@ == decode_i8s(s@.subrange(0, i as int)),
        decreases s@.len() - i,
    {
        v.push(s[i] as i8);
        i = i + 1;
        assert(v@ =~= decode_i8s(s@.subrange(0, i as int)));
    }
    assert(s@.subrange(0, s@.len() as int) =~= s@);
    v
}

/// Reads past `n` arrays, each a `u32` element count and that many elements
/// of `width` bytes.
pub fn skip_u32_prefixed_seq(data: &mut Reader<'_>, n: u32, width: usize) -> (r: Result<(), Error>)
    requires
        old(data).wf(),
        width <= 8,
    ensures
        final(data).wf(),
        final(data).data == old(data).data,
        match parse_u32_prefixed_seq(old(data).rest(), n as nat, width as nat) {
            Ok((_, k)) => r is Ok && final(data).advanced(*old(data), k),
            Err(e) => r == Err::<(), Error>(e),
        },
{
    let ghost start = *data;
    let ghost mut done: Seq<Seq<u8>> = seq![];
    let mut i: u32 = 0;
    while i < n
        invariant
            start == *old(data),
            start.wf(),
            data.wf(),
            width <= 8,
            data.data@ == start.data@,
            start.cur <= data.cur,
            i <= n,
            parse_u32_prefixed_seq(start.rest(), n as nat, width as nat) == prepend(
                done,
                data.cur - start.cur,
                parse_u32_prefixed_seq(data.rest(), (n - i) as nat, width as nat),
            ),
        decreases n - i,
    {
        let ghost before = *data;
        let a = read_with_u32_length(data, width)?;
        proof {
            lemma_rest_advance(before, *data, data.cur - before.cur);
            lemma_prepend_push(done, before.cur - start.cur, a@, data.cur - before.cur,
                parse_u32_prefixed_seq(data.rest(), (n - i - 1) as nat, width as nat));
            done = done.push(a@);
        }
        i = i + 1;
    }
    proof {
        assert(done + seq![] =~= done);
    }
    Ok(())
}

/// Reads past `n` strings.
pub fn skip_string_seq(data: &mut Reader<'_>, n: u32) -> (r: Result<(), Error>)
    requires
        old(data).wf(),
    ensures
        final(data).wf(),
        final(data).data == old(data).data,
        match parse_string_seq(old(data).rest(), n as nat) {
            Ok((_, k)) => r is Ok && final(data).advanced(*old(data), k),
            Err(e) => r == Err::<(), Error>(e),
        },
{
    let ghost start = *data;
    let ghost mut done: Seq<Seq<u8>> = seq![];
    let mut i: u32 = 0;
    while i < n
        invariant
            start == *old(data),
            start.wf(),
            data.wf(),
            data.data@ == start.data@,
            start.cur <= data.cur,
            i <= n,
            parse_string_seq(start.rest(), n as nat) == prepend(
                done,
                data.cur - start.cur,
                parse_string_seq(data.rest(), (n - i) as nat),
            ),
        decreases n - i,
    {
        let ghost before = *data;
        let a = read_string(data)?;
        proof {
            lemma_rest_advance(before, *data, data.cur - before.cur);
            lemma_prepend_push(done, before.cur - start.cur, a@, data.cur - before.cur,
                parse_string_seq(data.rest(), (n - i - 1) as nat));
            done = done.push(a@);
        }
        i = i + 1;
    }
    proof {
        assert(done + seq![] =~= done);
    }
    Ok(())
}

/// Reads a big-endian `u32`.
pub fn read_u32(data: &mut Reader<'_>) -> (r: Result<u32, Error>)
    requires
        old(data).wf(),
    ensures
        final(data).wf(),
        final(data).data == old(data).data,
        r is Ok <==> 4 <= old(data).rest().len(),
        r matches Ok(v) ==> v == spec_u32_be(old(data).rest()) && final(data).advanced(*old(data), 4),
        r is Err ==> r == Err::<u32, Error>(Error::UnexpectedEof),
{
    data.read_u32()
}

/// Reads a big-endian `u16`.
pub fn read_u16(data: &mut Reader<'_>) -> (r: Result<u16, Error>)
    requires
        old(data).wf(),
    ensures
        final(data).wf(),
        final(data).data == old(data).data,
        r is Ok <==> 2 <= old(data).rest().len(),
        r matches Ok(v) ==> v == spec_u16_be(old(data).rest()) && final(data).advanced(*old(data), 2),
        r is Err ==> r == Err::<u16, Error>(Error::UnexpectedEof),
{
    data.read_u16()
}

/// Reads an int array: its `u32` length, then its big-endian elements.
pub fn read_int_array<'a>(data: &mut Reader<'a>) -> (r: Result<RawList<'a, i32>, Error>)
    requires
        old(data).wf(),
        old(data).data@.len() <= u32::MAX,
    ensures
        final(data).wf(),
        final(data).data == old(data).data,
        match parse_u32_prefixed(old(data).rest(), 4) {
            Ok((a, k)) => r matches Ok(l) && l@ == a && l.wf() && final(data).advanced(*old(data), k),
            Err(e) => r is Err && r->Err_0 == e,
        },
{
    let bytes = read_with_u32_length(data, 4)?;
    Ok(RawList::new_from_slice(bytes))
}

/// Reads a long array: its `u32` length, then its big-endian elements.
pub fn read_long_array<'a>(data: &mut Reader<'a>) -> (r: Result<RawList<'a, i64>, Error>)
    requires
        old(data).wf(),
        old(data).data@.len() <= u32::MAX,
    ensures
        final(data).wf(),
        final(data).data == old(data).data,
        match parse_u32_prefixed(old(data).rest(), 8) {
            Ok((a, k)) => r matches Ok(l) && l@ == a && l.wf() && final(data).advanced(*old(data), k),
            Err(e) => r is Err && r->Err_0 == e,
        },
{
    let bytes = read_with_u32_length(data, 8)?;
    Ok(RawList::new_from_slice(bytes))
}

/// The big-endian bytes of the numbers, in order.
pub fn slice_into_u8_big_endian<T: WritableNumber>(s: &[T]) -> (r: Vec<u8>)
    ensures
        r@ == T::spec_encode_all(s@),
{
    let mut out: Vec<u8> = Vec::new();
    T::write_all(&mut out, s);
    assert(out@ =~= Seq::<u8>::empty() + T::spec_encode_all(s@));
    out
}

/// A number type whose runs can be written big-endian.
pub trait WritableNumber: Sized {
    /// The big-endian bytes of the numbers, in order.
    spec fn spec_encode_all(v: Seq<Self>) -> Seq<u8>;

    /// Appends the big-endian bytes of the numbers.
    fn write_all(data: &mut Vec<u8>, v: &[Self])
        ensures
            final(data)@ == old(data)@ + Self::spec_encode_all(v@);
}

impl WritableNumber for i16 {
    open spec fn spec_encode_all(v: Seq<i16>) -> Seq<u8> {
        encode_i16s(v)
    }

    fn write_all(data: &mut Vec<u8>, v: &[i16]) {
        write_i16_array(data, v)
    }
}

impl WritableNumber for i32 {
    open spec fn spec_encode_all(v: Seq<i32>) -> Seq<u8> {
        encode_i32s(v)
    }

    fn write_all(data: &mut Vec<u8>, v: &[i32]) {
        write_i32_array(data, v)
    }
}

impl WritableNumber for i64 {
    open spec fn spec_encode_all(v: Seq<i64>) -> Seq<u8> {
        encode_i64s(v)
    }

    fn write_all(data: &mut Vec<u8>, v: &[i64]) {
        write_i64_array(data, v)
    }
}

impl WritableNumber for u32 {
    open spec fn spec_encode_all(v: Seq<u32>) -> Seq<u8> {
        encode_u32s(v)
    }

    fn write_all(data: &mut Vec<u8>, v: &[u32]) {
        write_u32_array(data, v)
    }
}

impl WritableNumber for u64 {
    open spec fn spec_encode_all(v: Seq<u64>) -> Seq<u8> {
        encode_u64s(v)
    }

    fn write_all(data: &mut Vec<u8>, v: &[u64]) {
        write_u64_array(data, v)
    }
}

} // verus!
