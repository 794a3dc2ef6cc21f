//! Owned lists: tags of a single type.

use vstd::prelude::*;

use super::{compounds_model, lemma_compounds_model, lemma_lists_model, list_model, lists_model, CompoundTag};
use crate::common::{
    read_string, read_u8_array, read_with_u32_length, MAX_DEPTH,
    write_i16_array, write_i32_array, write_i64_array, write_i8_array, write_string,
    write_u32, write_u32_array, write_u64_array, write_with_u32_length, BYTE_ARRAY_ID, BYTE_ID,
    COMPOUND_ID, DOUBLE_ID, END_ID, FLOAT_ID, INT_ARRAY_ID, INT_ID, LIST_ID, LONG_ARRAY_ID,
    LONG_ID, SHORT_ID, STRING_ID,
};
use crate::model::{
    lemma_concat_map_take, lemma_ser_compounds_take, lemma_ser_lists_take, list_id, ser_byte_array,
    ser_byte_arrays, ser_compounds, ser_int_array, ser_int_arrays, ser_list, ser_lists,
    ser_long_array, ser_long_arrays, ser_string, ser_strings, ListModel,
};
use crate::error::Error;
use crate::model::{
    decode_i32s, decode_i64s, decode_i8s, lemma_entries_bounds, lemma_list_bounds, lemma_prepend_push, parse_compounds, parse_list,
    parse_lists, parse_string_seq, parse_u32_prefixed_seq, prepend,
};
use crate::mutf8::{bytes_to_vec, Mutf8String};
use super::format::{
    lemma_owned_entries_bounds, lemma_owned_list_bounds, owned_parse_compounds, owned_parse_list,
    owned_parse_lists,
};
use crate::reader::{lemma_rest_advance, parsed_as, Reader};
use crate::swap_endianness::{lemma_numbers_from_be, swap_endianness};

verus! {

/// Reads `n` byte arrays.
fn read_byte_arrays(data: &mut Reader<'_>, n: u32) -> (r: Result<Vec<Vec<u8>>, Error>)
    requires
        old(data).wf(),
    ensures
        final(data).wf(),
        final(data).data == old(data).data,
        match parse_u32_prefixed_seq(old(data).rest(), n as nat, 1) {
            Ok((a, k)) => r matches Ok(v) && v@.map_values(|x: Vec<u8>| x@) == a && final(data).advanced(*old(data), k),
            Err(e) => r == Err::<Vec<Vec<u8>>, Error>(e),
        },
{
    let ghost start = *data;
    let mut out: Vec<Vec<u8>> = Vec::new();
    let mut i: u32 = 0;
    while i < n
        invariant
            start == *old(data),
            start.wf(),
            data.wf(),
            data.data@ == start.data@,
            start.cur <= data.cur,
            i <= n,
            parse_u32_prefixed_seq(start.rest(), n as nat, 1) == prepend(
                out@.map_values(|x: Vec<u8>| x@),
                data.cur - start.cur,
                parse_u32_prefixed_seq(data.rest(), (n - i) as nat, 1),
            ),
        decreases n - i,
    {
        let ghost before = *data;
        let a = read_u8_array(data)?;
        proof {
            lemma_rest_advance(before, *data, data.cur - before.cur);
            lemma_prepend_push(out@.map_values(|x: Vec<u8>| x@), before.cur - start.cur, a@, data.cur - before.cur,
                parse_u32_prefixed_seq(data.rest(), (n - i - 1) as nat, 1));
        }
        let ghost out_before = out@;
        out.push(bytes_to_vec(a));
        proof {
            assert(out@.map_values(|x: Vec<u8>| x@) =~= out_before.map_values(|x: Vec<u8>| x@).push(a@));
        }
        i = i + 1;
    }
    proof {
        assert(out@.map_values(|x: Vec<u8>| x@) + seq![] =~= out@.map_values(|x: Vec<u8>| x@));
    }
    Ok(out)
}

/// Reads `n` strings.
fn read_strings(data: &mut Reader<'_>, n: u32) -> (r: Result<Vec<Mutf8String>, Error>)
    requires
        old(data).wf(),
    ensures
        final(data).wf(),
        final(data).data == old(data).data,
        match parse_string_seq(old(data).rest(), n as nat) {
            Ok((a, k)) => r matches Ok(v) && v@.map_values(|x: Mutf8String| x@) == a && final(data).advanced(*old(data), k),
            Err(e) => r == Err::<Vec<Mutf8String>, Error>(e),
        },
{
    let ghost start = *data;
    let mut out: Vec<Mutf8String> = Vec::new();
    let mut i: u32 = 0;
    while i < n
        invariant
            start == *old(data),
            start.wf(),
            data.wf(),
            data.data@ == start.data@,
            start.cur <= data.cur,
            i <= n,
            parse_string_seq(start.rest(), n as nat) == prepend(
                out@.map_values(|x: Mutf8String| x@),
                data.cur - start.cur,
                parse_string_seq(data.rest(), (n - i) as nat),
            ),
        decreases n - i,
    {
        let ghost before = *data;
        let a = read_string(data)?;
        proof {
            lemma_rest_advance(before, *data, data.cur - before.cur);
            lemma_prepend_push(out@.map_values(|x: Mutf8String| x@), before.cur - start.cur, a@, data.cur - before.cur,
                parse_string_seq(data.rest(), (n - i - 1) as nat));
        }
        let ghost out_before = out@;
        out.push(a.to_owned());
        proof {
            assert(out@.map_values(|x: Mutf8String| x@) =~= out_before.map_values(|x: Mutf8String| x@).push(a@));
        }
        i = i + 1;
    }
    proof {
        assert(out@.map_values(|x: Mutf8String| x@) + seq![] =~= out@.map_values(|x: Mutf8String| x@));
    }
    Ok(out)
}

/// Reads `n` int arrays.
fn read_int_arrays(data: &mut Reader<'_>, n: u32) -> (r: Result<Vec<Vec<i32>>, Error>)
    requires
        old(data).wf(),
    ensures
        final(data).wf(),
        final(data).data == old(data).data,
        match parse_u32_prefixed_seq(old(data).rest(), n as nat, 4) {
            Ok((a, k)) => r matches Ok(v) && v@.map_values(|x: Vec<i32>| x@) == a.map_values(|x: Seq<u8>| decode_i32s(x))
                && final(data).advanced(*old(data), k),
            Err(e) => r == Err::<Vec<Vec<i32>>, Error>(e),
        },
{
    let ghost start = *data;
    let ghost mut raw: Seq<Seq<u8>> = seq![];
    let mut out: Vec<Vec<i32>> = Vec::new();
    let mut i: u32 = 0;
    while i < n
        invariant
            start == *old(data),
            start.wf(),
            data.wf(),
            data.data@ == start.data@,
            start.cur <= data.cur,
            i <= n,
            out@.map_values(|x: Vec<i32>| x@) == raw.map_values(|x: Seq<u8>| decode_i32s(x)),
            parse_u32_prefixed_seq(start.rest(), n as nat, 4) == prepend(
                raw,
                data.cur - start.cur,
                parse_u32_prefixed_seq(data.rest(), (n - i) as nat, 4),
            ),
        decreases n - i,
    {
        let ghost before = *data;
        let a = read_with_u32_length(data, 4)?;
        proof {
            lemma_rest_advance(before, *data, data.cur - before.cur);
            lemma_prepend_push(raw, before.cur - start.cur, a@, data.cur - before.cur,
                parse_u32_prefixed_seq(data.rest(), (n - i - 1) as nat, 4));
            lemma_numbers_from_be(a@);
        }
        let ghost out_before = out@;
        out.push(swap_endianness::<i32>(a));
        proof {
            assert(out@.map_values(|x: Vec<i32>| x@) =~= out_before.map_values(|x: Vec<i32>| x@).push(decode_i32s(a@)));
            assert(raw.push(a@).map_values(|x: Seq<u8>| decode_i32s(x)) =~= raw.map_values(|x: Seq<u8>| decode_i32s(x)).push(decode_i32s(a@)));
            raw = raw.push(a@);
        }
        i = i + 1;
    }
    proof {
        assert(raw + seq![] =~= raw);
    }
    Ok(out)
}

/// Reads `n` long arrays.
fn read_long_arrays(data: &mut Reader<'_>, n: u32) -> (r: Result<Vec<Vec<i64>>, Error>)
    requires
        old(data).wf(),
    ensures
        final(data).wf(),
        final(data).data == old(data).data,
        match parse_u32_prefixed_seq(old(data).rest(), n as nat, 8) {
            Ok((a, k)) => r matches Ok(v) && v@.map_values(|x: Vec<i64>| x@) == a.map_values(|x: Seq<u8>| decode_i64s(x))
                && final(data).advanced(*old(data), k),
            Err(e) => r == Err::<Vec<Vec<i64>>, Error>(e),
        },
{
    let ghost start = *data;
    let ghost mut raw: Seq<Seq<u8>> = seq![];
    let mut out: Vec<Vec<i64>> = Vec::new();
    let mut i: u32 = 0;
    while i < n
        invariant
            start == *old(data),
            start.wf(),
            data.wf(),
            data.data@ == start.data@,
            start.cur <= data.cur,
            i <= n,
            out@.map_values(|x: Vec<i64>| x@) == raw.map_values(|x: Seq<u8>| decode_i64s(x)),
            parse_u32_prefixed_seq(start.rest(), n as nat, 8) == prepend(
                raw,
                data.cur - start.cur,
                parse_u32_prefixed_seq(data.rest(), (n - i) as nat, 8),
            ),
        decreases n - i,
    {
        let ghost before = *data;
        let a = read_with_u32_length(data, 8)?;
        proof {
            lemma_rest_advance(before, *data, data.cur - before.cur);
            lemma_prepend_push(raw, before.cur - start.cur, a@, data.cur - before.cur,
                parse_u32_prefixed_seq(data.rest(), (n - i - 1) as nat, 8));
            lemma_numbers_from_be(a@);
        }
        let ghost out_before = out@;
        out.push(swap_endianness::<i64>(a));
        proof {
            assert(out@.map_values(|x: Vec<i64>| x@) =~= out_before.map_values(|x: Vec<i64>| x@).push(decode_i64s(a@)));
            assert(raw.push(a@).map_values(|x: Seq<u8>| decode_i64s(x)) =~= raw.map_values(|x: Seq<u8>| decode_i64s(x)).push(decode_i64s(a@)));
            raw = raw.push(a@);
        }
        i = i + 1;
    }
    proof {
        assert(raw + seq![] =~= raw);
    }
    Ok(out)
}

/// Reads the `n` lists of a list of lists at `depth`.
fn read_lists(data: &mut Reader<'_>, depth: usize, n: u32) -> (r: Result<Vec<ListTag>, Error>)
    requires
        old(data).wf(),
    ensures
        final(data).wf(),
        final(data).data == old(data).data,
        match owned_parse_lists(old(data).rest(), depth as int, n as nat) {
            Ok((a, k)) => r matches Ok(v) && lists_model(v@) == a && final(data).advanced(*old(data), k),
            Err(e) => r == Err::<Vec<ListTag>, Error>(e),
        },
    decreases old(data).rest().len(), 1nat,
{
    let ghost start = *data;
    let mut out: Vec<ListTag> = Vec::new();
    let mut i: u32 = 0;
    while i < n
        invariant
            start == *old(data),
            start.wf(),
            data.wf(),
            data.data@ == start.data@,
            start.cur <= data.cur,
            i <= n,
            owned_parse_lists(start.rest(), depth as int, n as nat) == prepend(
                lists_model(out@),
                data.cur - start.cur,
                owned_parse_lists(data.rest(), depth as int, (n - i) as nat),
            ),
        decreases n - i,
    {
        let ghost before = *data;
        proof {
            lemma_owned_list_bounds(data.rest(), depth as int);
        }
        let l = ListTag::new(data, depth)?;
        proof {
            lemma_rest_advance(before, *data, data.cur - before.cur);
            lemma_prepend_push(lists_model(out@), before.cur - start.cur, l@, data.cur - before.cur,
                owned_parse_lists(data.rest(), depth as int, (n - i - 1) as nat));
        }
        let ghost out_before = out@;
        let ghost lm = l@;
        out.push(l);
        proof {
            assert(out@.drop_last() =~= out_before);
            assert(lists_model(out@) == lists_model(out_before).push(lm));
        }
        i = i + 1;
    }
    proof {
        assert(lists_model(out@) + seq![] =~= lists_model(out@));
    }
    Ok(out)
}

/// Reads the `n` compounds of a list of compounds at `depth`.
fn read_compounds(data: &mut Reader<'_>, depth: usize, n: u32) -> (r: Result<Vec<CompoundTag>, Error>)
    requires
        old(data).wf(),
    ensures
        final(data).wf(),
        final(data).data == old(data).data,
        match owned_parse_compounds(old(data).rest(), depth as int, n as nat) {
            Ok((a, k)) => r matches Ok(v) && compounds_model(v@) == a && final(data).advanced(*old(data), k),
            Err(e) => r == Err::<Vec<CompoundTag>, Error>(e),
        },
    decreases old(data).rest().len(), 1nat,
{
    let ghost start = *data;
    let mut out: Vec<CompoundTag> = Vec::new();
    let mut i: u32 = 0;
    while i < n
        invariant
            start == *old(data),
            start.wf(),
            data.wf(),
            data.data@ == start.data@,
            start.cur <= data.cur,
            i <= n,
            owned_parse_compounds(start.rest(), depth as int, n as nat) == prepend(
                compounds_model(out@),
                data.cur - start.cur,
                owned_parse_compounds(data.rest(), depth as int, (n - i) as nat),
            ),
        decreases n - i,
    {
        let ghost before = *data;
        proof {
            lemma_owned_entries_bounds(data.rest(), depth as int);
        }
        let c = CompoundTag::new(data, depth)?;
        proof {
            lemma_rest_advance(before, *data, data.cur - before.cur);
            lemma_prepend_push(compounds_model(out@), before.cur - start.cur, c@, data.cur - before.cur,
                owned_parse_compounds(data.rest(), depth as int, (n - i - 1) as nat));
        }
        let ghost out_before = out@;
        let ghost cm = c@;
        out.push(c);
        proof {
            assert(out@.drop_last() =~= out_before);
            assert(compounds_model(out@) == compounds_model(out_before).push(cm));
        }
        i = i + 1;
    }
    proof {
        assert(compounds_model(out@) + seq![] =~= compounds_model(out@));
    }
    Ok(out)
}

/// A list of NBT tags of a single type. Floats are held as their bits.
#[derive(Debug, PartialEq)]
pub enum ListTag {
    Empty,
    Byte(Vec<i8>),
    Short(Vec<i16>),
    Int(Vec<i32>),
    Long(Vec<i64>),
    Float(Vec<u32>),
    Double(Vec<u64>),
    ByteArray(Vec<Vec<u8>>),
    String(Vec<Mutf8String>),
    List(Vec<ListTag>),
    Compound(Vec<CompoundTag>),
    IntArray(Vec<Vec<i32>>),
    LongArray(Vec<Vec<i64>>),
}

impl View for ListTag {
    type V = ListModel;

    open spec fn view(&self) -> ListModel {
        list_model(*self)
    }
}

impl ListTag {
    /// Reads a list (element type, count, elements) at `depth`; a list deeper
    /// than `MAX_DEPTH` is refused before anything is read, and lists or
    /// compounds in it are one deeper.
    pub fn new(data: &mut Reader<'_>, depth: usize) -> (r: Result<ListTag, Error>)
        requires
            old(data).wf(),
        ensures
            final(data).wf(),
            final(data).data == old(data).data,
            parsed_as(r, owned_parse_list(old(data).rest(), depth as int), *old(data), *final(data)),
        decreases old(data).rest().len(), 0nat,
    {
        if depth > MAX_DEPTH {
            return Err(Error::MaxDepthExceeded);
        }
        let ghost s0 = data.rest();
        let ghost start = *data;
        let tag_type = data.read_u8()?;
        let ghost after_type = *data;
        proof {
            lemma_rest_advance(start, after_type, 1);
        }
        if tag_type == END_ID {
            data.skip(4)?;
            return Ok(ListTag::Empty);
        }
        if tag_type == BYTE_ID {
            let bytes = read_with_u32_length(data, 1)?;
            return Ok(ListTag::Byte(crate::common::slice_u8_into_i8(bytes)));
        }
        if tag_type == SHORT_ID {
            let bytes = read_with_u32_length(data, 2)?;
            proof { lemma_numbers_from_be(bytes@); }
            return Ok(ListTag::Short(swap_endianness::<i16>(bytes)));
        }
        if tag_type == INT_ID {
            let bytes = read_with_u32_length(data, 4)?;
            proof { lemma_numbers_from_be(bytes@); }
            return Ok(ListTag::Int(swap_endianness::<i32>(bytes)));
        }
        if tag_type == LONG_ID {
            let bytes = read_with_u32_length(data, 8)?;
            proof { lemma_numbers_from_be(bytes@); }
            return Ok(ListTag::Long(swap_endianness::<i64>(bytes)));
        }
        if tag_type == FLOAT_ID {
            let bytes = read_with_u32_length(data, 4)?;
            proof { lemma_numbers_from_be(bytes@); }
            return Ok(ListTag::Float(swap_endianness::<u32>(bytes)));
        }
        if tag_type == DOUBLE_ID {
            let bytes = read_with_u32_length(data, 8)?;
            proof { lemma_numbers_from_be(bytes@); }
            return Ok(ListTag::Double(swap_endianness::<u64>(bytes)));
        }
        if !(tag_type == BYTE_ARRAY_ID || tag_type == STRING_ID || tag_type == LIST_ID
            || tag_type == COMPOUND_ID || tag_type == INT_ARRAY_ID || tag_type == LONG_ARRAY_ID) {
            return Err(Error::UnknownTagId(tag_type));
        }
        let n = data.read_u32()?;
        let ghost after_count = *data;
        proof {
            lemma_rest_advance(after_type, after_count, 4);
        }
        if tag_type == BYTE_ARRAY_ID {
            Ok(ListTag::ByteArray(read_byte_arrays(data, n)?))
        } else if tag_type == STRING_ID {
            Ok(ListTag::String(read_strings(data, n)?))
        } else if tag_type == LIST_ID {
            Ok(ListTag::List(read_lists(data, depth + 1, n)?))
        } else if tag_type == COMPOUND_ID {
            Ok(ListTag::Compound(read_compounds(data, depth + 1, n)?))
        } else if tag_type == INT_ARRAY_ID {
            Ok(ListTag::IntArray(read_int_arrays(data, n)?))
        } else {
            Ok(ListTag::LongArray(read_long_arrays(data, n)?))
        }
    }

    /// Get the numerical ID of the element type.
    pub fn id(&self) -> (r: u8)
        ensures
            r == list_id(self@),
    {
        match self {
            ListTag::Empty => END_ID,
            ListTag::Byte(_) => BYTE_ID,
            ListTag::Short(_) => SHORT_ID,
            ListTag::Int(_) => INT_ID,
            ListTag::Long(_) => LONG_ID,
            ListTag::Float(_) => FLOAT_ID,
            ListTag::Double(_) => DOUBLE_ID,
            ListTag::ByteArray(_) => BYTE_ARRAY_ID,
            ListTag::String(_) => STRING_ID,
            ListTag::List(_) => LIST_ID,
            ListTag::Compound(_) => COMPOUND_ID,
            ListTag::IntArray(_) => INT_ARRAY_ID,
            ListTag::LongArray(_) => LONG_ARRAY_ID,
        }
    }

    pub fn bytes(&self) -> (r: Option<&[i8]>)
        ensures
            match self@ {
                ListModel::Byte(v) => r matches Some(x) && x@ == v,
                _ => r is None,
            },
    {
        match self {
            ListTag::Byte(v) => Some(v.as_slice()),
            _ => None,
        }
    }
    pub fn shorts(&self) -> (r: Option<&[i16]>)
        ensures
            match self@ {
                ListModel::Short(v) => r matches Some(x) && x@ == v,
                _ => r is None,
            },
    {
        match self {
            ListTag::Short(v) => Some(v.as_slice()),
            _ => None,
        }
    }
    pub fn ints(&self) -> (r: Option<&[i32]>)
        ensures
            match self@ {
                ListModel::Int(v) => r matches Some(x) && x@ == v,
                _ => r is None,
            },
    {
        match self {
            ListTag::Int(v) => Some(v.as_slice()),
            _ => None,
        }
    }
    pub fn longs(&self) -> (r: Option<&[i64]>)
        ensures
            match self@ {
                ListModel::Long(v) => r matches Some(x) && x@ == v,
                _ => r is None,
            },
    {
        match self {
            ListTag::Long(v) => Some(v.as_slice()),
            _ => None,
        }
    }
    pub fn float_bits(&self) -> (r: Option<&[u32]>)
        ensures
            match self@ {
                ListModel::Float(v) => r matches Some(x) && x@ == v,
                _ => r is None,
            },
    {
        match self {
            ListTag::Float(v) => Some(v.as_slice()),
            _ => None,
        }
    }
    pub fn double_bits(&self) -> (r: Option<&[u64]>)
        ensures
            match self@ {
                ListModel::Double(v) => r matches Some(x) && x@ == v,
                _ => r is None,
            },
    {
        match self {
            ListTag::Double(v) => Some(v.as_slice()),
            _ => None,
        }
    }
    pub fn byte_arrays(&self) -> (r: Option<&Vec<Vec<u8>>>)
        ensures
            match self@ {
                ListModel::ByteArray(v) => r matches Some(x) && x@.map_values(|a: Vec<u8>| a@) == v,
                _ => r is None,
            },
    {
        match self {
            ListTag::ByteArray(v) => Some(v),
            _ => None,
        }
    }

    pub fn strings(&self) -> (r: Option<&Vec<Mutf8String>>)
        ensures
            match self@ {
                ListModel::String(v) => r matches Some(x) && x@.map_values(|a: Mutf8String| a@) == v,
                _ => r is None,
            },
    {
        match self {
            ListTag::String(v) => Some(v),
            _ => None,
        }
    }

    pub fn lists(&self) -> (r: Option<&Vec<ListTag>>)
        ensures
            match self@ {
                ListModel::List(v) => r matches Some(x) && lists_model(x@) == v,
                _ => r is None,
            },
    {
        match self {
            ListTag::List(v) => Some(v),
            _ => None,
        }
    }

    pub fn compounds(&self) -> (r: Option<&Vec<CompoundTag>>)
        ensures
            match self@ {
                ListModel::Compound(v) => r matches Some(x) && compounds_model(x@) == v,
                _ => r is None,
            },
    {
        match self {
            ListTag::Compound(v) => Some(v),
            _ => None,
        }
    }

    pub fn int_arrays(&self) -> (r: Option<&Vec<Vec<i32>>>)
        ensures
            match self@ {
                ListModel::IntArray(v) => r matches Some(x) && x@.map_values(|a: Vec<i32>| a@) == v,
                _ => r is None,
            },
    {
        match self {
            ListTag::IntArray(v) => Some(v),
            _ => None,
        }
    }

    pub fn long_arrays(&self) -> (r: Option<&Vec<Vec<i64>>>)
        ensures
            match self@ {
                ListModel::LongArray(v) => r matches Some(x) && x@.map_values(|a: Vec<i64>| a@) == v,
                _ => r is None,
            },
    {
        match self {
            ListTag::LongArray(v) => Some(v),
            _ => None,
        }
    }

    /// Writes the element id, the element count and the elements.
    #[verifier::rlimit(60)]
    pub fn write(&self, data: &mut Vec<u8>)
        ensures
            final(data)@ == old(data)@ + ser_list(self@),
        decreases self,
    {
        let ghost start = data@;
        data.push(self.id());
        match self {
            ListTag::Empty => {
                write_u32(data, 0);
            },
            ListTag::Byte(v) => {
                write_u32(data, #[verifier::truncate] (v.len() as u32));
                write_i8_array(data, v.as_slice());
            },
            ListTag::Short(v) => {
                write_u32(data, #[verifier::truncate] (v.len() as u32));
                write_i16_array(data, v.as_slice());
            },
            ListTag::Int(v) => {
                write_u32(data, #[verifier::truncate] (v.len() as u32));
                write_i32_array(data, v.as_slice());
            },
            ListTag::Long(v) => {
                write_u32(data, #[verifier::truncate] (v.len() as u32));
                write_i64_array(data, v.as_slice());
            },
            ListTag::Float(v) => {
                write_u32(data, #[verifier::truncate] (v.len() as u32));
                write_u32_array(data, v.as_slice());
            },
            ListTag::Double(v) => {
                write_u32(data, #[verifier::truncate] (v.len() as u32));
                write_u64_array(data, v.as_slice());
            },
            ListTag::ByteArray(v) => {
                write_u32(data, #[verifier::truncate] (v.len() as u32));
                let ghost mid = data@;
                let ghost m = v@.map_values(|a: Vec<u8>| a@);
                let mut i: usize = 0;
                while i < v.len()
                    invariant
                        i <= v@.len(),
                        m == v@.map_values(|a: Vec<u8>| a@),
                        data@ == mid + ser_byte_arrays(m.take(i as int)),
                    decreases v@.len() - i,
                {
                    write_with_u32_length(data, v[i].len(), v[i].as_slice());
                    proof {
                        lemma_concat_map_take(m, |a: Seq<u8>| ser_byte_array(a), i as int);
                    }
                    i = i + 1;
                    assert(data@ =~= mid + ser_byte_arrays(m.take(i as int)));
                }
                assert(m.take(i as int) =~= m);
            },
            ListTag::String(v) => {
                write_u32(data, #[verifier::truncate] (v.len() as u32));
                let ghost mid = data@;
                let ghost m = v@.map_values(|a: crate::mutf8::Mutf8String| a@);
                let mut i: usize = 0;
                while i < v.len()
                    invariant
                        i <= v@.len(),
                        m == v@.map_values(|a: crate::mutf8::Mutf8String| a@),
                        data@ == mid + ser_strings(m.take(i as int)),
                    decreases v@.len() - i,
                {
                    write_string(data, v[i].as_str());
                    proof {
                        lemma_concat_map_take(m, |a: Seq<u8>| ser_string(a), i as int);
                    }
                    i = i + 1;
                    assert(data@ =~= mid + ser_strings(m.take(i as int)));
                }
                assert(m.take(i as int) =~= m);
            },
            ListTag::List(v) => {
                write_u32(data, #[verifier::truncate] (v.len() as u32));
                let ghost mid = data@;
                let ghost m = super::lists_model(v@);
                proof {
                    lemma_lists_model(v@);
                }
                let mut i: usize = 0;
                while i < v.len()
                    invariant
                        i <= v@.len(),
                        m == super::lists_model(v@),
                        *self == ListTag::List(*v),
                        m.len() == v@.len(),
                        forall|j: int| 0 <= j < v@.len() ==> #[trigger] m[j] == v@[j]@,
                        data@ == mid + ser_lists(m.take(i as int)),
                    decreases v@.len() - i,
                {
                    proof {
                        assert(*self == ListTag::List(*v));
                        assert(decreases_to!(*self => self->List_0));
                    }
                    v[i].write(data);
                    proof {
                        lemma_ser_lists_take(m, i as int);
                    }
                    i = i + 1;
                    assert(data@ =~= mid + ser_lists(m.take(i as int)));
                }
                assert(m.take(i as int) =~= m);
            },
            ListTag::Compound(v) => {
                write_u32(data, #[verifier::truncate] (v.len() as u32));
                let ghost mid = data@;
                let ghost m = super::compounds_model(v@);
                proof {
                    lemma_compounds_model(v@);
                }
                let mut i: usize = 0;
                while i < v.len()
                    invariant
                        i <= v@.len(),
                        m == super::compounds_model(v@),
                        *self == ListTag::Compound(*v),
                        m.len() == v@.len(),
                        forall|j: int| 0 <= j < v@.len() ==> #[trigger] m[j] == v@[j]@,
                        data@ == mid + ser_compounds(m.take(i as int)),
                    decreases v@.len() - i,
                {
                    proof {
                        assert(*self == ListTag::Compound(*v));
                        assert(decreases_to!(*self => self->Compound_0));
                    }
                    v[i].write(data);
                    proof {
                        lemma_ser_compounds_take(m, i as int);
                    }
                    i = i + 1;
                    assert(data@ =~= mid + ser_compounds(m.take(i as int)));
                }
                assert(m.take(i as int) =~= m);
            },
            ListTag::IntArray(v) => {
                write_u32(data, #[verifier::truncate] (v.len() as u32));
                let ghost mid = data@;
                let ghost m = v@.map_values(|a: Vec<i32>| a@);
                let mut i: usize = 0;
                while i < v.len()
                    invariant
                        i <= v@.len(),
                        m == v@.map_values(|a: Vec<i32>| a@),
                        data@ == mid + ser_int_arrays(m.take(i as int)),
                    decreases v@.len() - i,
                {
                    write_u32(data, #[verifier::truncate] (v[i].len() as u32));
                    write_i32_array(data, v[i].as_slice());
                    proof {
                        lemma_concat_map_take(m, |a: Seq<i32>| ser_int_array(a), i as int);
                    }
                    i = i + 1;
                    assert(data@ =~= mid + ser_int_arrays(m.take(i as int)));
                }
                assert(m.take(i as int) =~= m);
            },
            ListTag::LongArray(v) => {
                write_u32(data, #[verifier::truncate] (v.len() as u32));
                let ghost mid = data@;
                let ghost m = v@.map_values(|a: Vec<i64>| a@);
                let mut i: usize = 0;
                while i < v.len()
                    invariant
                        i <= v@.len(),
                        m == v@.map_values(|a: Vec<i64>| a@),
                        data@ == mid + ser_long_arrays(m.take(i as int)),
                    decreases v@.len() - i,
                {
                    write_u32(data, #[verifier::truncate] (v[i].len() as u32));
                    write_i64_array(data, v[i].as_slice());
                    proof {
                        lemma_concat_map_take(m, |a: Seq<i64>| ser_long_array(a), i as int);
                    }
                    i = i + 1;
                    assert(data@ =~= mid + ser_long_arrays(m.take(i as int)));
                }
                assert(m.take(i as int) =~= m);
            },
        }
        assert(data@ =~= start + ser_list(self@));
    }
}

} // verus!
