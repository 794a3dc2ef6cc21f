//! Borrowed lists.

use vstd::prelude::*;

use super::compound::NbtCompound;
use super::layout::{
    agree, approx_of, saturated_len, data_at, lemma_compounds_append, lemma_compounds_count_bound, lemma_lists_count_bound, lemma_frame_compounds, lemma_frame_lists,
    lemma_lists_append, span_of, tape_compounds, tape_list, tape_lists, tape_tag, value_of,
};
use super::tape::{
    elem_approx_len, elem_kind_id, elem_offset, lemma_make_container, lemma_make_elem, MainTape,
    TapeElement, TapeTagKind, APPROX_LEN_MAX,
};
use super::{fits, grew, kind_at, slice_at, span_at, string_at};
use super::layout::{parse_counted_arrays, parse_counted_strings};
use crate::common::{
    read_u32, write_i16_array, write_i32_array, write_i64_array, write_i8_array, write_string,
    write_u32, write_u32_array, write_u64_array, write_with_u32_length,
};
use crate::model::{
    lemma_concat_map_take, lemma_ser_compounds_take, lemma_ser_lists_take, ser_byte_array,
    ser_byte_arrays, ser_compounds, ser_int_array, ser_int_arrays, ser_list, ser_lists,
    ser_long_array, ser_long_arrays, ser_string, ser_strings,
};
use crate::model::{decode_i16s, decode_i32s, decode_i64s, decode_i8s, decode_u32s, decode_u64s, list_id, parse_string, parse_string_seq, parse_u32_prefixed, parse_u32_prefixed_seq};
use crate::mutf8::Mutf8Str;
use crate::raw_list::RawList;
use crate::swap_endianness::{lemma_numbers_from_be, swap_endianness};
use crate::common::{
    read_with_u32_length, skip_string_seq, skip_u32_prefixed_seq, BYTE_ARRAY_ID, BYTE_ID,
    COMPOUND_ID, DOUBLE_ID, END_ID, FLOAT_ID, INT_ARRAY_ID, INT_ID, LIST_ID, LONG_ARRAY_ID,
    LONG_ID, MAX_DEPTH, SHORT_ID, STRING_ID,
};
use crate::error::Error;
use crate::model::{
    lemma_compounds_count, lemma_entries_bounds, lemma_list_bounds, lemma_lists_count,
    lemma_prepend_push, parse_compounds, parse_entries, parse_list, parse_lists, prepend,
    ListModel, TagModel,
};
use crate::reader::{lemma_rest_advance, Reader};

verus! {

/// A list: a view of a tape and the data it points into.
pub struct NbtList<'a, 'tape> {
    pub data: &'a [u8],
    pub tape: &'tape MainTape,
    /// The index of the list's element on the tape.
    pub index: usize,
    pub model: Ghost<ListModel>,
}

impl<'a, 'tape> View for NbtList<'a, 'tape> {
    type V = ListModel;

    open spec fn view(&self) -> ListModel {
        self.model@
    }
}

/// Reads the `n` lists of a list of lists at `depth`.
fn read_lists<'a>(data: &mut Reader<'a>, tape: &mut MainTape, depth: usize, n: u32) -> (r: Result<(), Error>)
    requires
        old(data).wf(),
        fits(*old(data), old(tape)@),
    ensures
        final(data).wf(),
        match parse_lists(old(data).rest(), depth as int, n as nat) {
            Ok((v, k)) => {
                &&& r is Ok
                &&& final(data).advanced(*old(data), k)
                &&& grew(old(tape)@, final(tape)@, k)
                &&& tape_lists(final(tape)@, old(data).data@, old(tape)@.len() as int, final(tape)@.len() as int, v)
            },
            Err(e) => r == Err::<(), Error>(e),
        },
    decreases old(data).rest().len(), 1nat,
{
    let ghost start = *data;
    let ghost s0 = data.rest();
    let ghost t0 = tape@;
    let ghost bytes = data.data@;
    let ghost mut done: Seq<ListModel> = seq![];
    let mut i: u32 = 0;
    while i < n
        invariant
            start == *old(data),
            s0 == start.rest(),
            t0 == old(tape)@,
            bytes == start.data@,
            start.wf(),
            data.wf(),
            data.data@ == bytes,
            start.cur <= data.cur,
            fits(start, t0),
            i <= n,
            grew(t0, tape@, data.cur - start.cur),
            tape_lists(tape@, bytes, t0.len() as int, tape@.len() as int, done),
            parse_lists(s0, depth as int, n as nat) == prepend(done, data.cur - start.cur,
                parse_lists(data.rest(), depth as int, (n - i) as nat)),
        decreases n - i,
    {
        let ghost before = *data;
        let ghost tb = tape@;
        proof {
            lemma_list_bounds(data.rest(), depth as int);
        }
        NbtList::read(data, tape, depth)?;
        proof {
            let l = value_of(parse_list(before.rest(), depth as int));
            let k = data.cur - before.cur;
            lemma_rest_advance(before, *data, k);
            lemma_prepend_push(done, before.cur - start.cur, l, k,
                parse_lists(data.rest(), depth as int, (n - i - 1) as nat));
            lemma_lists_append(tb, tape@, bytes, t0.len() as int, tb.len() as int, done, l);
            done = done.push(l);
        }
        i = i + 1;
    }
    proof {
        assert(done + seq![] =~= done);
    }
    Ok(())
}

/// Reads the `n` compounds of a list of compounds at `depth`.
fn read_compounds<'a>(data: &mut Reader<'a>, tape: &mut MainTape, depth: usize, n: u32) -> (r: Result<(), Error>)
    requires
        old(data).wf(),
        fits(*old(data), old(tape)@),
    ensures
        final(data).wf(),
        match parse_compounds(old(data).rest(), depth as int, n as nat) {
            Ok((v, k)) => {
                &&& r is Ok
                &&& final(data).advanced(*old(data), k)
                &&& grew(old(tape)@, final(tape)@, k)
                &&& tape_compounds(final(tape)@, old(data).data@, old(tape)@.len() as int, final(tape)@.len() as int, v)
            },
            Err(e) => r == Err::<(), Error>(e),
        },
    decreases old(data).rest().len(), 1nat,
{
    let ghost start = *data;
    let ghost s0 = data.rest();
    let ghost t0 = tape@;
    let ghost bytes = data.data@;
    let ghost mut done: Seq<Seq<(Seq<u8>, TagModel)>> = seq![];
    let mut i: u32 = 0;
    while i < n
        invariant
            start == *old(data),
            s0 == start.rest(),
            t0 == old(tape)@,
            bytes == start.data@,
            start.wf(),
            data.wf(),
            data.data@ == bytes,
            start.cur <= data.cur,
            fits(start, t0),
            i <= n,
            grew(t0, tape@, data.cur - start.cur),
            tape_compounds(tape@, bytes, t0.len() as int, tape@.len() as int, done),
            parse_compounds(s0, depth as int, n as nat) == prepend(done, data.cur - start.cur,
                parse_compounds(data.rest(), depth as int, (n - i) as nat)),
        decreases n - i,
    {
        if depth >= MAX_DEPTH - 1 {
            return Err(Error::MaxDepthExceeded);
        }
        let ghost before = *data;
        let ghost tb = tape@;
        proof {
            lemma_entries_bounds(data.rest(), depth + 1);
        }
        NbtCompound::read_with_depth(data, tape, depth + 1)?;
        proof {
            let c = value_of(parse_entries(before.rest(), depth + 1));
            let k = data.cur - before.cur;
            lemma_rest_advance(before, *data, k);
            lemma_prepend_push(done, before.cur - start.cur, c, k,
                parse_compounds(data.rest(), depth as int, (n - i - 1) as nat));
            lemma_compounds_append(tb, tape@, bytes, t0.len() as int, tb.len() as int, done, c);
            done = done.push(c);
        }
        i = i + 1;
    }
    proof {
        assert(done + seq![] =~= done);
    }
    Ok(())
}

impl<'a, 'tape> NbtList<'a, 'tape> {
    /// The tape holds the list at `index`.
    pub open spec fn wf(&self) -> bool {
        &&& self.data@.len() <= u32::MAX
        &&& tape_list(self.tape@, self.data@, self.index as int, self.model@)
    }

    /// Reads a list (element type, count, elements) inside a container at
    /// `depth`, pushing its elements to the tape.
    #[verifier::rlimit(40)]
    pub fn read(data: &mut Reader<'a>, tape: &mut MainTape, depth: usize) -> (r: Result<(), Error>)
        requires
            old(data).wf(),
            fits(*old(data), old(tape)@),
        ensures
            final(data).wf(),
            match parse_list(old(data).rest(), depth as int) {
                Ok((l, k)) => {
                    &&& r is Ok
                    &&& final(data).advanced(*old(data), k)
                    &&& grew(old(tape)@, final(tape)@, k)
                    &&& tape_list(final(tape)@, old(data).data@, old(tape)@.len() as int, l)
                    &&& old(tape)@.len() + span_of(final(tape)@[old(tape)@.len() as int]) == final(tape)@.len()
                },
                Err(e) => r == Err::<(), Error>(e),
            },
        decreases old(data).rest().len(), 0nat,
    {
        let ghost start = *data;
        let ghost bytes = data.data@;
        let ghost t0 = tape@;
        let tag_type = data.read_u8()?;
        let ghost after_type = *data;
        proof {
            lemma_rest_advance(start, after_type, 1);
        }
        let p = data.cur as u64;
        proof {
            assert(after_type.rest() =~= data_at(bytes, p));
        }
        if tag_type == END_ID {
            data.skip(4)?;
            tape.push(TapeElement::new_with_0(TapeTagKind::EmptyList));
            proof {
                lemma_make_elem(0, 0);
            }
            return Ok(());
        }
        if tag_type == BYTE_ID {
            read_with_u32_length(data, 1)?;
            tape.push(TapeElement::new_with_ptr(TapeTagKind::ByteList, p));
            proof {
                lemma_make_elem(13, p);
            }
            return Ok(());
        }
        if tag_type == SHORT_ID {
            read_with_u32_length(data, 2)?;
            tape.push(TapeElement::new_with_ptr(TapeTagKind::ShortList, p));
            proof {
                lemma_make_elem(14, p);
            }
            return Ok(());
        }
        if tag_type == INT_ID {
            read_with_u32_length(data, 4)?;
            tape.push(TapeElement::new_with_ptr(TapeTagKind::IntList, p));
            proof {
                lemma_make_elem(15, p);
            }
            return Ok(());
        }
        if tag_type == LONG_ID {
            read_with_u32_length(data, 8)?;
            tape.push(TapeElement::new_with_ptr(TapeTagKind::LongList, p));
            proof {
                lemma_make_elem(16, p);
            }
            return Ok(());
        }
        if tag_type == FLOAT_ID {
            read_with_u32_length(data, 4)?;
            tape.push(TapeElement::new_with_ptr(TapeTagKind::FloatList, p));
            proof {
                lemma_make_elem(17, p);
            }
            return Ok(());
        }
        if tag_type == DOUBLE_ID {
            read_with_u32_length(data, 8)?;
            tape.push(TapeElement::new_with_ptr(TapeTagKind::DoubleList, p));
            proof {
                lemma_make_elem(18, p);
            }
            return Ok(());
        }
        if !(tag_type == BYTE_ARRAY_ID || tag_type == STRING_ID || tag_type == LIST_ID
            || tag_type == COMPOUND_ID || tag_type == INT_ARRAY_ID || tag_type == LONG_ARRAY_ID) {
            return Err(Error::UnknownTagId(tag_type));
        }
        let n = data.read_u32()?;
        let ghost after_count = *data;
        proof {
            lemma_rest_advance(after_type, after_count, 4);
            crate::model::lemma_u32_prefixed_seq_bounds(after_count.rest(), n as nat, 1);
            crate::model::lemma_u32_prefixed_seq_bounds(after_count.rest(), n as nat, 4);
            crate::model::lemma_u32_prefixed_seq_bounds(after_count.rest(), n as nat, 8);
            crate::model::lemma_string_seq_bounds(after_count.rest(), n as nat);
        }
        if tag_type == BYTE_ARRAY_ID {
            skip_u32_prefixed_seq(data, n, 1)?;
            tape.push(TapeElement::new_with_ptr(TapeTagKind::ByteArrayList, p));
            proof {
                lemma_make_elem(19, p);
            }
            Ok(())
        } else if tag_type == STRING_ID {
            skip_string_seq(data, n)?;
            tape.push(TapeElement::new_with_ptr(TapeTagKind::StringList, p));
            proof {
                lemma_make_elem(20, p);
            }
            Ok(())
        } else if tag_type == INT_ARRAY_ID {
            skip_u32_prefixed_seq(data, n, 4)?;
            tape.push(TapeElement::new_with_ptr(TapeTagKind::IntArrayList, p));
            proof {
                lemma_make_elem(23, p);
            }
            Ok(())
        } else if tag_type == LONG_ARRAY_ID {
            skip_u32_prefixed_seq(data, n, 8)?;
            tape.push(TapeElement::new_with_ptr(TapeTagKind::LongArrayList, p));
            proof {
                lemma_make_elem(24, p);
            }
            Ok(())
        } else {
            if depth >= MAX_DEPTH - 1 {
                return Err(Error::MaxDepthExceeded);
            }
            let c = tape.len();
            let is_lists = tag_type == LIST_ID;
            if is_lists {
                tape.push(TapeElement::new_with_approx_len_and_offset(TapeTagKind::ListList, n, 0));
                proof {
                    lemma_make_container(21, approx_of(n as nat), 0);
                }
            } else {
                tape.push(TapeElement::new_with_approx_len_and_offset(TapeTagKind::CompoundList, n, 0));
                proof {
                    lemma_make_container(22, approx_of(n as nat), 0);
                }
            }
            let ghost placeholder = tape@[c as int];
            let ghost tp = tape@;
            let ghost before = *data;
            if is_lists {
                read_lists(data, tape, depth + 1, n)?;
            } else {
                read_compounds(data, tape, depth + 1, n)?;
            }
            let end = tape.len();
            let ghost tl = tape@;
            proof {
                assert(before == after_count);
                assert(tl.len() - tp.len() <= data.cur - before.cur);
                assert(tl.len() - t0.len() <= data.cur - start.cur);
                assert(tl[c as int] == placeholder);
                assert(end - c <= u32::MAX);
            }
            tape.set_offset_at(c, (end - c) as u32);
            proof {
                lemma_make_container(elem_kind_id(placeholder), elem_approx_len(placeholder), (end - c) as u32);
                assert(tape@.len() == tl.len());
                assert(tape@.len() - t0.len() <= data.cur - start.cur);
                assert(agree(t0, tape@, 0, t0.len() as int)) by {
                    assert forall|j: int| 0 <= j < t0.len() implies #[trigger] tape@[j] == t0[j] by {
                        assert(tp[j] == t0[j]);
                        assert(tl[j] == tp[j]);
                    }
                }
                let s2 = after_count.rest();
                if is_lists {
                    lemma_lists_count(s2, depth + 1, n as nat);
                    let v = value_of(parse_lists(s2, depth + 1, n as nat));
                    lemma_frame_lists(tl, tape@, bytes, c + 1, end as int, v);
                } else {
                    lemma_compounds_count(s2, depth + 1, n as nat);
                    let v = value_of(parse_compounds(s2, depth + 1, n as nat));
                    lemma_frame_compounds(tl, tape@, bytes, c + 1, end as int, v);
                }
            }
            Ok(())
        }
    }
}

/// The arrays of `width`-byte elements after the count at `p`.
fn arrays_at<'a>(data: &'a [u8], p: u64, width: usize) -> (r: Vec<&'a [u8]>)
    requires
        p <= data@.len(),
        width <= 8,
        parse_counted_arrays(data_at(data@, p), width as nat) is Ok,
    ensures
        r@.map_values(|x: &'a [u8]| x@) == value_of(parse_counted_arrays(data_at(data@, p), width as nat)),
        forall|i: int| 0 <= i < r@.len() ==> (#[trigger] r@[i])@.len() <= data@.len(),
{
    let _n = data.len();
    let mut reader = Reader { data, cur: p as usize };
    assert(reader.rest() =~= data_at(data@, p));
    let n = match read_u32(&mut reader) {
        Ok(n) => n,
        Err(_) => {
            assert(false);
            0
        },
    };
    let ghost start = reader;
    let ghost s0 = start.rest();
    proof {
        lemma_rest_advance(Reader { data, cur: p as usize }, start, 4);
    }
    let mut out: Vec<&'a [u8]> = Vec::new();
    let mut i: u32 = 0;
    while i < n
        invariant
            start.wf(),
            reader.wf(),
            reader.data@ == data@,
            width <= 8,
            i <= n,
            start.cur <= reader.cur,
            parse_u32_prefixed_seq(s0, n as nat, width as nat) is Ok,
            s0 == start.rest(),
            forall|j: int| 0 <= j < out@.len() ==> (#[trigger] out@[j])@.len() <= data@.len(),
            parse_u32_prefixed_seq(s0, n as nat, width as nat) == prepend(
                out@.map_values(|x: &'a [u8]| x@),
                reader.cur - start.cur,
                parse_u32_prefixed_seq(reader.rest(), (n - i) as nat, width as nat),
            ),
        decreases n - i,
    {
        let ghost before = reader;
        let a = match read_with_u32_length(&mut reader, width) {
            Ok(a) => a,
            Err(_) => {
                assert(false);
                data
            },
        };
        proof {
            lemma_rest_advance(before, reader, reader.cur - before.cur);
            lemma_prepend_push(out@.map_values(|x: &'a [u8]| x@), before.cur - start.cur, a@, reader.cur - before.cur,
                parse_u32_prefixed_seq(reader.rest(), (n - i - 1) as nat, width as nat));
        }
        let ghost out_before = out@;
        out.push(a);
        proof {
            assert(out@.map_values(|x: &'a [u8]| x@) =~= out_before.map_values(|x: &'a [u8]| x@).push(a@));
        }
        i = i + 1;
    }
    proof {
        assert(out@.map_values(|x: &'a [u8]| x@) + seq![] =~= out@.map_values(|x: &'a [u8]| x@));
    }
    out
}

/// The strings after the count at `p`.
fn strings_at<'a>(data: &'a [u8], p: u64) -> (r: Vec<Mutf8Str<'a>>)
    requires
        p <= data@.len(),
        parse_counted_strings(data_at(data@, p)) is Ok,
    ensures
        r@.map_values(|x: Mutf8Str<'a>| x@) == value_of(parse_counted_strings(data_at(data@, p))),
{
    let _n = data.len();
    let mut reader = Reader { data, cur: p as usize };
    assert(reader.rest() =~= data_at(data@, p));
    let n = match read_u32(&mut reader) {
        Ok(n) => n,
        Err(_) => {
            assert(false);
            0
        },
    };
    let ghost start = reader;
    let ghost s0 = start.rest();
    proof {
        lemma_rest_advance(Reader { data, cur: p as usize }, start, 4);
    }
    let mut out: Vec<Mutf8Str<'a>> = Vec::new();
    let mut i: u32 = 0;
    while i < n
        invariant
            start.wf(),
            reader.wf(),
            reader.data@ == data@,
            i <= n,
            start.cur <= reader.cur,
            parse_string_seq(s0, n as nat) is Ok,
            s0 == start.rest(),
            parse_string_seq(s0, n as nat) == prepend(
                out@.map_values(|x: Mutf8Str<'a>| x@),
                reader.cur - start.cur,
                parse_string_seq(reader.rest(), (n - i) as nat),
            ),
        decreases n - i,
    {
        let ghost before = reader;
        let a = match crate::common::read_string(&mut reader) {
            Ok(a) => a,
            Err(_) => {
                assert(false);
                Mutf8Str::from_slice(data)
            },
        };
        proof {
            lemma_rest_advance(before, reader, reader.cur - before.cur);
            lemma_prepend_push(out@.map_values(|x: Mutf8Str<'a>| x@), before.cur - start.cur, a@, reader.cur - before.cur,
                parse_string_seq(reader.rest(), (n - i - 1) as nat));
        }
        let ghost out_before = out@;
        out.push(a);
        proof {
            assert(out@.map_values(|x: Mutf8Str<'a>| x@) =~= out_before.map_values(|x: Mutf8Str<'a>| x@).push(a@));
        }
        i = i + 1;
    }
    proof {
        assert(out@.map_values(|x: Mutf8Str<'a>| x@) + seq![] =~= out@.map_values(|x: Mutf8Str<'a>| x@));
    }
    out
}

impl<'a, 'tape> NbtList<'a, 'tape> {
    /// Get the numerical ID of the element type.
    pub fn id(&self) -> (r: u8)
        requires
            self.wf(),
        ensures
            r == list_id(self@),
    {
        let k = kind_at(self.tape, self.index);
        if k == 0 {
            END_ID
        } else {
            k - 12
        }
    }

    /// Returns whether the list is specifically a list with the `empty` tag
    /// type. This will return false if the list is any other type (even it
    /// has a length of zero).
    pub fn empty(&self) -> (r: bool)
        requires
            self.wf(),
        ensures
            r <==> self@ is Empty,
    {
        kind_at(self.tape, self.index) == 0
    }

    pub fn bytes(&self) -> (r: Option<Vec<i8>>)
        requires
            self.wf(),
        ensures
            match self@ {
                ListModel::Byte(v) => r matches Some(x) && x@ == v,
                _ => r is None,
            },
    {
        if kind_at(self.tape, self.index) == 13 {
            Some(crate::common::slice_u8_into_i8(slice_at(self.data, self.tape.get(self.index).ptr(), 1)))
        } else {
            None
        }
    }

    pub fn shorts(&self) -> (r: Option<RawList<'a, i16>>)
        requires
            self.wf(),
        ensures
            match self@ {
                ListModel::Short(v) => r matches Some(x) && x.wf() && decode_i16s(x@) == v,
                _ => r is None,
            },
    {
        if kind_at(self.tape, self.index) == 14 {
            let bytes = slice_at(self.data, self.tape.get(self.index).ptr(), 2);
            Some(RawList::new_from_slice(bytes))
        } else {
            None
        }
    }

    pub fn ints(&self) -> (r: Option<RawList<'a, i32>>)
        requires
            self.wf(),
        ensures
            match self@ {
                ListModel::Int(v) => r matches Some(x) && x.wf() && decode_i32s(x@) == v,
                _ => r is None,
            },
    {
        if kind_at(self.tape, self.index) == 15 {
            let bytes = slice_at(self.data, self.tape.get(self.index).ptr(), 4);
            Some(RawList::new_from_slice(bytes))
        } else {
            None
        }
    }

    pub fn longs(&self) -> (r: Option<RawList<'a, i64>>)
        requires
            self.wf(),
        ensures
            match self@ {
                ListModel::Long(v) => r matches Some(x) && x.wf() && decode_i64s(x@) == v,
                _ => r is None,
            },
    {
        if kind_at(self.tape, self.index) == 16 {
            let bytes = slice_at(self.data, self.tape.get(self.index).ptr(), 8);
            Some(RawList::new_from_slice(bytes))
        } else {
            None
        }
    }

    /// The IEEE-754 bits of the elements of a list of floats.
    pub fn float_bits(&self) -> (r: Option<RawList<'a, u32>>)
        requires
            self.wf(),
        ensures
            match self@ {
                ListModel::Float(v) => r matches Some(x) && x.wf() && decode_u32s(x@) == v,
                _ => r is None,
            },
    {
        if kind_at(self.tape, self.index) == 17 {
            let bytes = slice_at(self.data, self.tape.get(self.index).ptr(), 4);
            Some(RawList::new_from_slice(bytes))
        } else {
            None
        }
    }

    /// The IEEE-754 bits of the elements of a list of doubles.
    pub fn double_bits(&self) -> (r: Option<RawList<'a, u64>>)
        requires
            self.wf(),
        ensures
            match self@ {
                ListModel::Double(v) => r matches Some(x) && x.wf() && decode_u64s(x@) == v,
                _ => r is None,
            },
    {
        if kind_at(self.tape, self.index) == 18 {
            let bytes = slice_at(self.data, self.tape.get(self.index).ptr(), 8);
            Some(RawList::new_from_slice(bytes))
        } else {
            None
        }
    }

    pub fn byte_arrays(&self) -> (r: Option<Vec<&'a [u8]>>)
        requires
            self.wf(),
        ensures
            match self@ {
                ListModel::ByteArray(v) => r matches Some(x) && x@.map_values(|a: &'a [u8]| a@) == v,
                _ => r is None,
            },
    {
        if kind_at(self.tape, self.index) == 19 {
            Some(arrays_at(self.data, self.tape.get(self.index).ptr(), 1))
        } else {
            None
        }
    }

    pub fn strings(&self) -> (r: Option<Vec<Mutf8Str<'a>>>)
        requires
            self.wf(),
        ensures
            match self@ {
                ListModel::String(v) => r matches Some(x) && x@.map_values(|a: Mutf8Str<'a>| a@) == v,
                _ => r is None,
            },
    {
        if kind_at(self.tape, self.index) == 20 {
            Some(strings_at(self.data, self.tape.get(self.index).ptr()))
        } else {
            None
        }
    }

    pub fn int_arrays(&self) -> (r: Option<Vec<RawList<'a, i32>>>)
        requires
            self.wf(),
        ensures
            match self@ {
                ListModel::IntArray(v) => r matches Some(x) && x@.len() == v.len()
                    && forall|i: int| 0 <= i < v.len() ==> (#[trigger] x@[i]).wf() && decode_i32s(x@[i]@) == v[i],
                _ => r is None,
            },
    {
        if kind_at(self.tape, self.index) == 23 {
            let arrays = arrays_at(self.data, self.tape.get(self.index).ptr(), 4);
            let ghost v = self@->IntArray_0;
            let ghost raw = arrays@.map_values(|a: &'a [u8]| a@);
            let mut out: Vec<RawList<'a, i32>> = Vec::new();
            let mut i: usize = 0;
            while i < arrays.len()
                invariant
                    self.wf(),
                    i <= arrays@.len(),
                    forall|j: int| 0 <= j < arrays@.len() ==> (#[trigger] arrays@[j])@.len() <= self.data@.len(),
                    raw == arrays@.map_values(|a: &'a [u8]| a@),
                    raw.map_values(|b: Seq<u8>| decode_i32s(b)) == v,
                    out@.len() == i,
                    forall|j: int| 0 <= j < i ==> (#[trigger] out@[j]).wf() && decode_i32s(out@[j]@) == v[j],
                decreases arrays@.len() - i,
            {
                proof {
                    assert(raw[i as int] == arrays@[i as int]@);
                    assert(v[i as int] == decode_i32s(raw[i as int]));
                    assert(arrays@[i as int]@.len() <= self.data@.len());
                }
                out.push(RawList::new_from_slice(arrays[i]));
                i = i + 1;
            }
            Some(out)
        } else {
            None
        }
    }

    pub fn long_arrays(&self) -> (r: Option<Vec<RawList<'a, i64>>>)
        requires
            self.wf(),
        ensures
            match self@ {
                ListModel::LongArray(v) => r matches Some(x) && x@.len() == v.len()
                    && forall|i: int| 0 <= i < v.len() ==> (#[trigger] x@[i]).wf() && decode_i64s(x@[i]@) == v[i],
                _ => r is None,
            },
    {
        if kind_at(self.tape, self.index) == 24 {
            let arrays = arrays_at(self.data, self.tape.get(self.index).ptr(), 8);
            let ghost v = self@->LongArray_0;
            let ghost raw = arrays@.map_values(|a: &'a [u8]| a@);
            let mut out: Vec<RawList<'a, i64>> = Vec::new();
            let mut i: usize = 0;
            while i < arrays.len()
                invariant
                    self.wf(),
                    i <= arrays@.len(),
                    forall|j: int| 0 <= j < arrays@.len() ==> (#[trigger] arrays@[j])@.len() <= self.data@.len(),
                    raw == arrays@.map_values(|a: &'a [u8]| a@),
                    raw.map_values(|b: Seq<u8>| decode_i64s(b)) == v,
                    out@.len() == i,
                    forall|j: int| 0 <= j < i ==> (#[trigger] out@[j]).wf() && decode_i64s(out@[j]@) == v[j],
                decreases arrays@.len() - i,
            {
                proof {
                    assert(raw[i as int] == arrays@[i as int]@);
                    assert(v[i as int] == decode_i64s(raw[i as int]));
                    assert(arrays@[i as int]@.len() <= self.data@.len());
                }
                out.push(RawList::new_from_slice(arrays[i]));
                i = i + 1;
            }
            Some(out)
        } else {
            None
        }
    }
}

/// An iterator over a list of lists.
#[derive(Clone, Copy)]
pub struct NbtListListIter<'a, 'tape> {
    pub data: &'a [u8],
    pub tape: &'tape MainTape,
    /// The index of the next list's element on the tape.
    pub current: usize,
    /// The index just past the last list's elements.
    pub stop: usize,
    /// The number of lists when the iterator was made, saturated at 2^24 - 1.
    pub approx_length: u32,
    /// The lists not yet returned.
    pub model: Ghost<Seq<ListModel>>,
}

impl<'a, 'tape> View for NbtListListIter<'a, 'tape> {
    type V = Seq<ListModel>;

    open spec fn view(&self) -> Seq<ListModel> {
        self.model@
    }
}

impl<'a, 'tape> NbtListListIter<'a, 'tape> {
    pub open spec fn wf(&self) -> bool {
        &&& self.data@.len() <= u32::MAX
        &&& tape_lists(self.tape@, self.data@, self.current as int, self.stop as int, self.model@)
    }

    /// The next list.
    pub fn next(&mut self) -> (r: Option<NbtList<'a, 'tape>>)
        requires
            old(self).wf(),
        ensures
            final(self).wf(),
            final(self).approx_length == old(self).approx_length,
            final(self).stop == old(self).stop,
            final(self).tape == old(self).tape,
            final(self).data == old(self).data,
            old(self).current <= final(self).current,
            old(self)@.len() > 0 ==> old(self).current < final(self).current,
            old(self)@.len() == 0 ==> r is None && final(self)@ == old(self)@,
            old(self)@.len() > 0 ==> (r matches Some(l) && l@ == old(self)@[0] && l.wf()
                && final(self)@ == old(self)@.drop_first()),
    {
        proof {
            lemma_lists_count_bound(self.tape@, self.data@, self.current as int, self.stop as int, self@);
        }
        if self.current >= self.stop {
            return None;
        }
        let ghost v = self.model@;
        let l = NbtList { data: self.data, tape: self.tape, index: self.current, model: Ghost(v[0]) };
        self.current = self.current + span_at(self.tape, self.current);
        self.model = Ghost(v.drop_first());
        Some(l)
    }

    /// Returns the number of lists: the recorded length, or when that is
    /// saturated, the number of lists left, counted.
    pub fn len(&self) -> (r: usize)
        requires
            self.wf(),
        ensures
            r == (if self.approx_length < APPROX_LEN_MAX { self.approx_length as nat } else { self@.len() }),
    {
        if self.approx_length < APPROX_LEN_MAX {
            return self.approx_length as usize;
        }
        let mut it = *self;
        let mut count: usize = 0;
        proof {
            lemma_lists_count_bound(self.tape@, self.data@, self.current as int, self.stop as int, self@);
        }
        while it.current < it.stop
            invariant
                it.wf(),
                count + it@.len() == self@.len(),
                self@.len() <= self.stop - self.current,
                it.stop <= it.tape@.len(),
            decreases it.stop - it.current,
        {
            proof {
                lemma_lists_count_bound(it.tape@, it.data@, it.current as int, it.stop as int, it@);
            }
            let _ = it.next();
            count = count + 1;
        }
        proof {
            if it@.len() > 0 {
                assert(false);
            }
        }
        count
    }

    /// A version of [`Self::len`] that saturates at 2^24: the recorded
    /// length, or when that is saturated, the number left counted and
    /// saturated at 2^24.
    pub fn approx_len(&self) -> (r: u32)
        requires
            self.wf(),
        ensures
            r == (if self.approx_length < APPROX_LEN_MAX { self.approx_length } else { saturated_len(self@.len()) }),
    {
        if self.approx_length < APPROX_LEN_MAX {
            return self.approx_length;
        }
        let n = self.len();
        if n >= 0x100_0000 {
            0x100_0000
        } else {
            n as u32
        }
    }

    pub fn is_empty(self) -> (r: bool)
        ensures
            r <==> self.approx_length == 0,
    {
        self.approx_length == 0
    }
}

/// A list of lists, acting more like a `Vec`.
#[derive(Clone, Copy)]
pub struct NbtListList<'a, 'tape> {
    pub iter: NbtListListIter<'a, 'tape>,
}

impl<'a, 'tape> View for NbtListList<'a, 'tape> {
    type V = Seq<ListModel>;

    open spec fn view(&self) -> Seq<ListModel> {
        self.iter@
    }
}

impl<'a, 'tape> NbtListList<'a, 'tape> {
    pub open spec fn wf(&self) -> bool {
        &&& self.iter.wf()
        &&& self.iter.approx_length == approx_of(self@.len())
    }

    /// Returns the number of lists directly in this list.
    pub fn len(&self) -> (r: usize)
        requires
            self.wf(),
        ensures
            r == self@.len(),
    {
        self.iter.len()
    }

    /// A version of [`Self::len`] that saturates at 2^24.
    pub fn approx_len(&self) -> (r: u32)
        requires
            self.wf(),
        ensures
            r == saturated_len(self@.len()),
    {
        self.iter.approx_len()
    }

    /// Get the list at the given index.
    pub fn get(&self, index: usize) -> (r: Option<NbtList<'a, 'tape>>)
        requires
            self.wf(),
        ensures
            index < self@.len() ==> (r matches Some(l) && l@ == self@[index as int] && l.wf()),
            index >= self@.len() ==> r is None,
    {
        let mut it = self.iter;
        let mut i: usize = 0;
        while i < index
            invariant
                it.wf(),
                i <= index,
                i <= self@.len() ==> it@ == self@.subrange(i as int, self@.len() as int),
                i > self@.len() ==> it@.len() == 0,
            decreases index - i,
        {
            let ghost before = it@;
            let _ = it.next();
            proof {
                if i < self@.len() {
                    assert(it@ =~= self@.subrange(i + 1, self@.len() as int));
                }
            }
            i = i + 1;
        }
        it.next()
    }

    pub fn first(&self) -> (r: Option<NbtList<'a, 'tape>>)
        requires
            self.wf(),
        ensures
            self@.len() > 0 ==> (r matches Some(l) && l@ == self@[0] && l.wf()),
            self@.len() == 0 ==> r is None,
    {
        let mut it = self.iter;
        it.next()
    }

    pub fn last(&self) -> (r: Option<NbtList<'a, 'tape>>)
        requires
            self.wf(),
        ensures
            self@.len() > 0 ==> (r matches Some(l) && l@ == self@.last() && l.wf()),
            self@.len() == 0 ==> r is None,
    {
        let n = self.len();
        if n == 0 {
            None
        } else {
            self.get(n - 1)
        }
    }

    pub fn is_empty(self) -> (r: bool)
        requires
            self.wf(),
        ensures
            r <==> self@.len() == 0,
    {
        self.approx_len() == 0
    }

    /// An iterator over the lists.
    pub fn into_iter(self) -> (r: NbtListListIter<'a, 'tape>)
        requires
            self.wf(),
        ensures
            r.wf(),
            r@ == self@,
    {
        self.iter
    }
}

/// An iterator over a list of compounds.
#[derive(Clone, Copy)]
pub struct NbtCompoundListIter<'a, 'tape> {
    pub data: &'a [u8],
    pub tape: &'tape MainTape,
    /// The index of the next compound's element on the tape.
    pub current: usize,
    /// The index just past the last compound's elements.
    pub stop: usize,
    /// The number of compounds when the iterator was made, saturated at
    /// 2^24 - 1.
    pub approx_length: u32,
    /// The compounds not yet returned.
    pub model: Ghost<Seq<Seq<(Seq<u8>, TagModel)>>>,
}

impl<'a, 'tape> View for NbtCompoundListIter<'a, 'tape> {
    type V = Seq<Seq<(Seq<u8>, TagModel)>>;

    open spec fn view(&self) -> Seq<Seq<(Seq<u8>, TagModel)>> {
        self.model@
    }
}

impl<'a, 'tape> NbtCompoundListIter<'a, 'tape> {
    pub open spec fn wf(&self) -> bool {
        &&& self.data@.len() <= u32::MAX
        &&& tape_compounds(self.tape@, self.data@, self.current as int, self.stop as int, self.model@)
    }

    /// The next compound.
    pub fn next(&mut self) -> (r: Option<NbtCompound<'a, 'tape>>)
        requires
            old(self).wf(),
        ensures
            final(self).wf(),
            final(self).approx_length == old(self).approx_length,
            final(self).stop == old(self).stop,
            final(self).tape == old(self).tape,
            final(self).data == old(self).data,
            old(self).current <= final(self).current,
            old(self)@.len() > 0 ==> old(self).current < final(self).current,
            old(self)@.len() == 0 ==> r is None && final(self)@ == old(self)@,
            old(self)@.len() > 0 ==> (r matches Some(c) && c@ == old(self)@[0] && c.wf()
                && final(self)@ == old(self)@.drop_first()),
    {
        proof {
            lemma_compounds_count_bound(self.tape@, self.data@, self.current as int, self.stop as int, self@);
        }
        if self.current >= self.stop {
            return None;
        }
        let ghost v = self.model@;
        let c = NbtCompound { data: self.data, tape: self.tape, index: self.current, model: Ghost(v[0]) };
        self.current = self.current + span_at(self.tape, self.current);
        self.model = Ghost(v.drop_first());
        Some(c)
    }

    /// Returns the number of compounds: the recorded length, or when that is
    /// saturated, the number of compounds left, counted.
    pub fn len(&self) -> (r: usize)
        requires
            self.wf(),
        ensures
            r == (if self.approx_length < APPROX_LEN_MAX { self.approx_length as nat } else { self@.len() }),
    {
        if self.approx_length < APPROX_LEN_MAX {
            return self.approx_length as usize;
        }
        let mut it = *self;
        let mut count: usize = 0;
        proof {
            lemma_compounds_count_bound(self.tape@, self.data@, self.current as int, self.stop as int, self@);
        }
        while it.current < it.stop
            invariant
                it.wf(),
                count + it@.len() == self@.len(),
                self@.len() <= self.stop - self.current,
                it.stop <= it.tape@.len(),
            decreases it.stop - it.current,
        {
            proof {
                lemma_compounds_count_bound(it.tape@, it.data@, it.current as int, it.stop as int, it@);
            }
            let _ = it.next();
            count = count + 1;
        }
        proof {
            if it@.len() > 0 {
                assert(false);
            }
        }
        count
    }

    /// A version of [`Self::len`] that saturates at 2^24: the recorded
    /// length, or when that is saturated, the number left counted and
    /// saturated at 2^24.
    pub fn approx_len(&self) -> (r: u32)
        requires
            self.wf(),
        ensures
            r == (if self.approx_length < APPROX_LEN_MAX { self.approx_length } else { saturated_len(self@.len()) }),
    {
        if self.approx_length < APPROX_LEN_MAX {
            return self.approx_length;
        }
        let n = self.len();
        if n >= 0x100_0000 {
            0x100_0000
        } else {
            n as u32
        }
    }

    pub fn is_empty(self) -> (r: bool)
        ensures
            r <==> self.approx_length == 0,
    {
        self.approx_length == 0
    }
}

/// A list of compounds, acting more like a `Vec`.
#[derive(Clone, Copy)]
pub struct NbtCompoundList<'a, 'tape> {
    pub iter: NbtCompoundListIter<'a, 'tape>,
}

impl<'a, 'tape> View for NbtCompoundList<'a, 'tape> {
    type V = Seq<Seq<(Seq<u8>, TagModel)>>;

    open spec fn view(&self) -> Seq<Seq<(Seq<u8>, TagModel)>> {
        self.iter@
    }
}

impl<'a, 'tape> NbtCompoundList<'a, 'tape> {
    pub open spec fn wf(&self) -> bool {
        &&& self.iter.wf()
        &&& self.iter.approx_length == approx_of(self@.len())
    }

    /// Returns the number of compounds directly in this list.
    pub fn len(&self) -> (r: usize)
        requires
            self.wf(),
        ensures
            r == self@.len(),
    {
        self.iter.len()
    }

    /// A version of [`Self::len`] that saturates at 2^24.
    pub fn approx_len(&self) -> (r: u32)
        requires
            self.wf(),
        ensures
            r == saturated_len(self@.len()),
    {
        self.iter.approx_len()
    }

    /// Get the compound at the given index.
    pub fn get(&self, index: usize) -> (r: Option<NbtCompound<'a, 'tape>>)
        requires
            self.wf(),
        ensures
            index < self@.len() ==> (r matches Some(c) && c@ == self@[index as int] && c.wf()),
            index >= self@.len() ==> r is None,
    {
        let mut it = self.iter;
        let mut i: usize = 0;
        while i < index
            invariant
                it.wf(),
                i <= index,
                i <= self@.len() ==> it@ == self@.subrange(i as int, self@.len() as int),
                i > self@.len() ==> it@.len() == 0,
            decreases index - i,
        {
            let _ = it.next();
            proof {
                if i < self@.len() {
                    assert(it@ =~= self@.subrange(i + 1, self@.len() as int));
                }
            }
            i = i + 1;
        }
        it.next()
    }

    pub fn first(&self) -> (r: Option<NbtCompound<'a, 'tape>>)
        requires
            self.wf(),
        ensures
            self@.len() > 0 ==> (r matches Some(c) && c@ == self@[0] && c.wf()),
            self@.len() == 0 ==> r is None,
    {
        let mut it = self.iter;
        it.next()
    }

    pub fn last(&self) -> (r: Option<NbtCompound<'a, 'tape>>)
        requires
            self.wf(),
        ensures
            self@.len() > 0 ==> (r matches Some(c) && c@ == self@.last() && c.wf()),
            self@.len() == 0 ==> r is None,
    {
        let n = self.len();
        if n == 0 {
            None
        } else {
            self.get(n - 1)
        }
    }

    pub fn is_empty(self) -> (r: bool)
        requires
            self.wf(),
        ensures
            r <==> self@.len() == 0,
    {
        self.approx_len() == 0
    }

    /// An iterator over the compounds.
    pub fn into_iter(self) -> (r: NbtCompoundListIter<'a, 'tape>)
        requires
            self.wf(),
        ensures
            r.wf(),
            r@ == self@,
    {
        self.iter
    }
}

impl<'a, 'tape> NbtList<'a, 'tape> {
    pub fn lists(&self) -> (r: Option<NbtListList<'a, 'tape>>)
        requires
            self.wf(),
        ensures
            match self@ {
                ListModel::List(v) => r matches Some(x) && x@ == v && x.wf(),
                _ => r is None,
            },
    {
        if kind_at(self.tape, self.index) == 21 {
            let _n = self.tape.len();
            let (approx_length, offset) = self.tape.get(self.index).approx_len_and_offset();
            Some(NbtListList {
                iter: NbtListListIter {
                    data: self.data,
                    tape: self.tape,
                    current: self.index + 1,
                    stop: self.index + offset as usize,
                    approx_length,
                    model: Ghost(self@->List_0),
                },
            })
        } else {
            None
        }
    }

    pub fn compounds(&self) -> (r: Option<NbtCompoundList<'a, 'tape>>)
        requires
            self.wf(),
        ensures
            match self@ {
                ListModel::Compound(v) => r matches Some(x) && x@ == v && x.wf(),
                _ => r is None,
            },
    {
        if kind_at(self.tape, self.index) == 22 {
            let _n = self.tape.len();
            let (approx_length, offset) = self.tape.get(self.index).approx_len_and_offset();
            Some(NbtCompoundList {
                iter: NbtCompoundListIter {
                    data: self.data,
                    tape: self.tape,
                    current: self.index + 1,
                    stop: self.index + offset as usize,
                    approx_length,
                    model: Ghost(self@->Compound_0),
                },
            })
        } else {
            None
        }
    }
}

impl<'a, 'tape> NbtList<'a, 'tape> {
    /// An owned copy of the list.
    pub fn to_owned(&self) -> (r: crate::owned::ListTag)
        requires
            self.wf(),
        ensures
            r@ == self@,
        decreases self@,
    {
        let k = kind_at(self.tape, self.index);
        if k == 0 {
            return crate::owned::ListTag::Empty;
        }
        if let Some(v) = self.bytes() {
            return crate::owned::ListTag::Byte(v);
        }
        if let Some(v) = self.shorts() {
            proof { lemma_numbers_from_be(v@); }
            return crate::owned::ListTag::Short(v.to_vec());
        }
        if let Some(v) = self.ints() {
            proof { lemma_numbers_from_be(v@); }
            return crate::owned::ListTag::Int(v.to_vec());
        }
        if let Some(v) = self.longs() {
            proof { lemma_numbers_from_be(v@); }
            return crate::owned::ListTag::Long(v.to_vec());
        }
        if let Some(v) = self.float_bits() {
            proof { lemma_numbers_from_be(v@); }
            return crate::owned::ListTag::Float(v.to_vec());
        }
        if let Some(v) = self.double_bits() {
            proof { lemma_numbers_from_be(v@); }
            return crate::owned::ListTag::Double(v.to_vec());
        }
        if let Some(arrays) = self.byte_arrays() {
            let mut out: Vec<Vec<u8>> = Vec::new();
            let mut i: usize = 0;
            while i < arrays.len()
                invariant
                    i <= arrays@.len(),
                    out@.len() == i,
                    forall|j: int| 0 <= j < i ==> (#[trigger] out@[j])@ == arrays@[j]@,
                decreases arrays@.len() - i,
            {
                out.push(crate::mutf8::bytes_to_vec(arrays[i]));
                i = i + 1;
            }
            proof {
                assert(out@.map_values(|a: Vec<u8>| a@) =~= arrays@.map_values(|a: &'a [u8]| a@));
            }
            return crate::owned::ListTag::ByteArray(out);
        }
        if let Some(strings) = self.strings() {
            let mut out: Vec<crate::mutf8::Mutf8String> = Vec::new();
            let mut i: usize = 0;
            while i < strings.len()
                invariant
                    i <= strings@.len(),
                    out@.len() == i,
                    forall|j: int| 0 <= j < i ==> (#[trigger] out@[j])@ == strings@[j]@,
                decreases strings@.len() - i,
            {
                out.push(strings[i].to_owned());
                i = i + 1;
            }
            proof {
                assert(out@.map_values(|a: crate::mutf8::Mutf8String| a@) =~= strings@.map_values(|a: Mutf8Str<'a>| a@));
            }
            return crate::owned::ListTag::String(out);
        }
        if let Some(arrays) = self.int_arrays() {
            let ghost v = self@->IntArray_0;
            let mut out: Vec<Vec<i32>> = Vec::new();
            let mut i: usize = 0;
            while i < arrays.len()
                invariant
                    i <= arrays@.len(),
                    arrays@.len() == v.len(),
                    forall|j: int| 0 <= j < v.len() ==> (#[trigger] arrays@[j]).wf() && decode_i32s(arrays@[j]@) == v[j],
                    out@.len() == i,
                    forall|j: int| 0 <= j < i ==> (#[trigger] out@[j])@ == v[j],
                decreases arrays@.len() - i,
            {
                proof { lemma_numbers_from_be(arrays@[i as int]@); }
                out.push(arrays[i].to_vec());
                i = i + 1;
            }
            proof {
                assert(out@.map_values(|a: Vec<i32>| a@) =~= v);
            }
            return crate::owned::ListTag::IntArray(out);
        }
        if let Some(arrays) = self.long_arrays() {
            let ghost v = self@->LongArray_0;
            let mut out: Vec<Vec<i64>> = Vec::new();
            let mut i: usize = 0;
            while i < arrays.len()
                invariant
                    i <= arrays@.len(),
                    arrays@.len() == v.len(),
                    forall|j: int| 0 <= j < v.len() ==> (#[trigger] arrays@[j]).wf() && decode_i64s(arrays@[j]@) == v[j],
                    out@.len() == i,
                    forall|j: int| 0 <= j < i ==> (#[trigger] out@[j])@ == v[j],
                decreases arrays@.len() - i,
            {
                proof { lemma_numbers_from_be(arrays@[i as int]@); }
                out.push(arrays[i].to_vec());
                i = i + 1;
            }
            proof {
                assert(out@.map_values(|a: Vec<i64>| a@) =~= v);
            }
            return crate::owned::ListTag::LongArray(out);
        }
        if let Some(lists) = self.lists() {
            let ghost v = self@->List_0;
            let mut it = lists.into_iter();
            let mut out: Vec<crate::owned::ListTag> = Vec::new();
            while it.current < it.stop
                invariant
                    it.wf(),
                    it.stop <= it.tape@.len(),
                    v == self@->List_0,
                    self@ is List,
                    out@.len() + it@.len() == v.len(),
                    it@ == v.subrange(out@.len() as int, v.len() as int),
                    crate::owned::lists_model(out@) == v.subrange(0, out@.len() as int),
                decreases it.stop - it.current,
            {
                proof {
                    lemma_lists_count_bound(it.tape@, it.data@, it.current as int, it.stop as int, it@);
                }
                let ghost n = out@.len() as int;
                match it.next() {
                    Some(l) => {
                        proof {
                            assert(l@ == v[n]);
                            assert(decreases_to!(self@ => v));
                            assert(decreases_to!(v => v[n]));
                        }
                        let o = l.to_owned();
                        let ghost before = out@;
                        out.push(o);
                        proof {
                            assert(out@.drop_last() =~= before);
                            assert(v.subrange(0, n + 1) =~= v.subrange(0, n).push(v[n]));
                            assert(it@ =~= v.subrange(n + 1, v.len() as int));
                        }
                    },
                    None => {
                        assert(false);
                    },
                }
            }
            proof {
                lemma_lists_count_bound(it.tape@, it.data@, it.current as int, it.stop as int, it@);
                assert(v.subrange(0, out@.len() as int) =~= v);
            }
            return crate::owned::ListTag::List(out);
        }
        match self.compounds() {
            Some(compounds) => {
                let ghost v = self@->Compound_0;
                let mut it = compounds.into_iter();
                let mut out: Vec<crate::owned::CompoundTag> = Vec::new();
                while it.current < it.stop
                    invariant
                        it.wf(),
                        it.stop <= it.tape@.len(),
                        v == self@->Compound_0,
                        self@ is Compound,
                        out@.len() + it@.len() == v.len(),
                        it@ == v.subrange(out@.len() as int, v.len() as int),
                        crate::owned::compounds_model(out@) == v.subrange(0, out@.len() as int),
                    decreases it.stop - it.current,
                {
                    proof {
                        lemma_compounds_count_bound(it.tape@, it.data@, it.current as int, it.stop as int, it@);
                    }
                    let ghost n = out@.len() as int;
                    match it.next() {
                        Some(c) => {
                            proof {
                                assert(c@ == v[n]);
                                assert(decreases_to!(self@ => v));
                                assert(decreases_to!(v => v[n]));
                            }
                            let o = c.to_owned();
                            let ghost before = out@;
                            out.push(o);
                            proof {
                                assert(out@.drop_last() =~= before);
                                assert(v.subrange(0, n + 1) =~= v.subrange(0, n).push(v[n]));
                                assert(it@ =~= v.subrange(n + 1, v.len() as int));
                            }
                        },
                        None => {
                            assert(false);
                        },
                    }
                }
                proof {
                    lemma_compounds_count_bound(it.tape@, it.data@, it.current as int, it.stop as int, it@);
                    assert(v.subrange(0, out@.len() as int) =~= v);
                }
                crate::owned::ListTag::Compound(out)
            },
            None => {
                assert(false);
                crate::owned::ListTag::Empty
            },
        }
    }
}

impl<'a, 'tape> NbtList<'a, 'tape> {
    /// Writes the element id, the element count and the elements.
    #[verifier::rlimit(40)]
    pub fn write(&self, data: &mut Vec<u8>)
        requires
            self.wf(),
        ensures
            final(data)@ == old(data)@ + ser_list(self@),
        decreases self@,
    {
        let ghost start = data@;
        data.push(self.id());
        if self.empty() {
            write_u32(data, 0);
            assert(data@ =~= start + ser_list(self@));
            return;
        }
        if let Some(v) = self.bytes() {
            write_u32(data, #[verifier::truncate] (v.len() as u32));
            write_i8_array(data, v.as_slice());
            assert(data@ =~= start + ser_list(self@));
            return;
        }
        if let Some(l) = self.shorts() {
            proof { lemma_numbers_from_be(l@); }
            let v = l.to_vec();
            write_u32(data, #[verifier::truncate] (v.len() as u32));
            write_i16_array(data, v.as_slice());
            assert(data@ =~= start + ser_list(self@));
            return;
        }
        if let Some(l) = self.ints() {
            proof { lemma_numbers_from_be(l@); }
            let v = l.to_vec();
            write_u32(data, #[verifier::truncate] (v.len() as u32));
            write_i32_array(data, v.as_slice());
            assert(data@ =~= start + ser_list(self@));
            return;
        }
        if let Some(l) = self.longs() {
            proof { lemma_numbers_from_be(l@); }
            let v = l.to_vec();
            write_u32(data, #[verifier::truncate] (v.len() as u32));
            write_i64_array(data, v.as_slice());
            assert(data@ =~= start + ser_list(self@));
            return;
        }
        if let Some(l) = self.float_bits() {
            proof { lemma_numbers_from_be(l@); }
            let v = l.to_vec();
            write_u32(data, #[verifier::truncate] (v.len() as u32));
            write_u32_array(data, v.as_slice());
            assert(data@ =~= start + ser_list(self@));
            return;
        }
        if let Some(l) = self.double_bits() {
            proof { lemma_numbers_from_be(l@); }
            let v = l.to_vec();
            write_u32(data, #[verifier::truncate] (v.len() as u32));
            write_u64_array(data, v.as_slice());
            assert(data@ =~= start + ser_list(self@));
            return;
        }
        if let Some(arrays) = self.byte_arrays() {
            let ghost m = self@->ByteArray_0;
            write_u32(data, #[verifier::truncate] (arrays.len() as u32));
            let ghost mid = data@;
            let mut i: usize = 0;
            while i < arrays.len()
                invariant
                    i <= arrays@.len(),
                    m == arrays@.map_values(|a: &'a [u8]| a@),
                    data@ == mid + ser_byte_arrays(m.take(i as int)),
                decreases arrays@.len() - i,
            {
                write_with_u32_length(data, arrays[i].len(), arrays[i]);
                proof {
                    lemma_concat_map_take(m, |a: Seq<u8>| ser_byte_array(a), i as int);
                }
                i = i + 1;
                assert(data@ =~= mid + ser_byte_arrays(m.take(i as int)));
            }
            assert(m.take(i as int) =~= m);
            assert(data@ =~= start + ser_list(self@));
            return;
        }
        if let Some(strings) = self.strings() {
            let ghost m = self@->String_0;
            write_u32(data, #[verifier::truncate] (strings.len() as u32));
            let ghost mid = data@;
            let mut i: usize = 0;
            while i < strings.len()
                invariant
                    i <= strings@.len(),
                    m == strings@.map_values(|a: Mutf8Str<'a>| a@),
                    data@ == mid + ser_strings(m.take(i as int)),
                decreases strings@.len() - i,
            {
                write_string(data, strings[i]);
                proof {
                    lemma_concat_map_take(m, |a: Seq<u8>| ser_string(a), i as int);
                }
                i = i + 1;
                assert(data@ =~= mid + ser_strings(m.take(i as int)));
            }
            assert(m.take(i as int) =~= m);
            assert(data@ =~= start + ser_list(self@));
            return;
        }
        if let Some(arrays) = self.int_arrays() {
            let ghost m = self@->IntArray_0;
            write_u32(data, #[verifier::truncate] (arrays.len() as u32));
            let ghost mid = data@;
            let mut i: usize = 0;
            while i < arrays.len()
                invariant
                    i <= arrays@.len(),
                    arrays@.len() == m.len(),
                    forall|j: int| 0 <= j < m.len() ==> (#[trigger] arrays@[j]).wf() && decode_i32s(arrays@[j]@) == m[j],
                    data@ == mid + ser_int_arrays(m.take(i as int)),
                decreases arrays@.len() - i,
            {
                proof { lemma_numbers_from_be(arrays@[i as int]@); }
                let v = arrays[i].to_vec();
                write_u32(data, #[verifier::truncate] (v.len() as u32));
                write_i32_array(data, v.as_slice());
                proof {
                    lemma_concat_map_take(m, |a: Seq<i32>| ser_int_array(a), i as int);
                }
                i = i + 1;
                assert(data@ =~= mid + ser_int_arrays(m.take(i as int)));
            }
            assert(m.take(i as int) =~= m);
            assert(data@ =~= start + ser_list(self@));
            return;
        }
        if let Some(arrays) = self.long_arrays() {
            let ghost m = self@->LongArray_0;
            write_u32(data, #[verifier::truncate] (arrays.len() as u32));
            let ghost mid = data@;
            let mut i: usize = 0;
            while i < arrays.len()
                invariant
                    i <= arrays@.len(),
                    arrays@.len() == m.len(),
                    forall|j: int| 0 <= j < m.len() ==> (#[trigger] arrays@[j]).wf() && decode_i64s(arrays@[j]@) == m[j],
                    data@ == mid + ser_long_arrays(m.take(i as int)),
                decreases arrays@.len() - i,
            {
                proof { lemma_numbers_from_be(arrays@[i as int]@); }
                let v = arrays[i].to_vec();
                write_u32(data, #[verifier::truncate] (v.len() as u32));
                write_i64_array(data, v.as_slice());
                proof {
                    lemma_concat_map_take(m, |a: Seq<i64>| ser_long_array(a), i as int);
                }
                i = i + 1;
                assert(data@ =~= mid + ser_long_arrays(m.take(i as int)));
            }
            assert(m.take(i as int) =~= m);
            assert(data@ =~= start + ser_list(self@));
            return;
        }
        if let Some(lists) = self.lists() {
            let ghost m = self@->List_0;
            let n = lists.len();
            write_u32(data, #[verifier::truncate] (n as u32));
            let ghost mid = data@;
            let mut it = lists.into_iter();
            let mut i: usize = 0;
            while it.current < it.stop
                invariant
                    it.wf(),
                    it.stop <= it.tape@.len(),
                    m == self@->List_0,
                    self@ is List,
                    m.len() == n,
                    i + it@.len() == m.len(),
                    it@ == m.subrange(i as int, m.len() as int),
                    data@ == mid + ser_lists(m.take(i as int)),
                decreases it.stop - it.current,
            {
                proof {
                    lemma_lists_count_bound(it.tape@, it.data@, it.current as int, it.stop as int, it@);
                }
                match it.next() {
                    Some(l) => {
                        proof {
                            assert(l@ == m[i as int]);
                            assert(decreases_to!(self@ => m));
                            assert(decreases_to!(m => m[i as int]));
                            lemma_ser_lists_take(m, i as int);
                        }
                        l.write(data);
                        proof {
                            assert(it@ =~= m.subrange(i + 1, m.len() as int));
                        }
                        i = i + 1;
                        assert(data@ =~= mid + ser_lists(m.take(i as int)));
                    },
                    None => {
                        assert(false);
                    },
                }
            }
            proof {
                lemma_lists_count_bound(it.tape@, it.data@, it.current as int, it.stop as int, it@);
                assert(m.take(i as int) =~= m);
            }
            assert(data@ =~= start + ser_list(self@));
            return;
        }
        match self.compounds() {
            Some(compounds) => {
                let ghost m = self@->Compound_0;
                let n = compounds.len();
                write_u32(data, #[verifier::truncate] (n as u32));
                let ghost mid = data@;
                let mut it = compounds.into_iter();
                let mut i: usize = 0;
                while it.current < it.stop
                    invariant
                        it.wf(),
                        it.stop <= it.tape@.len(),
                        m == self@->Compound_0,
                        self@ is Compound,
                        m.len() == n,
                        i + it@.len() == m.len(),
                        it@ == m.subrange(i as int, m.len() as int),
                        data@ == mid + ser_compounds(m.take(i as int)),
                    decreases it.stop - it.current,
                {
                    proof {
                        lemma_compounds_count_bound(it.tape@, it.data@, it.current as int, it.stop as int, it@);
                    }
                    match it.next() {
                        Some(c) => {
                            proof {
                                assert(c@ == m[i as int]);
                                assert(decreases_to!(self@ => m));
                                assert(decreases_to!(m => m[i as int]));
                                lemma_ser_compounds_take(m, i as int);
                            }
                            c.write(data);
                            proof {
                                assert(it@ =~= m.subrange(i + 1, m.len() as int));
                            }
                            i = i + 1;
                            assert(data@ =~= mid + ser_compounds(m.take(i as int)));
                        },
                        None => {
                            assert(false);
                        },
                    }
                }
                proof {
                    lemma_compounds_count_bound(it.tape@, it.data@, it.current as int, it.stop as int, it@);
                    assert(m.take(i as int) =~= m);
                }
                assert(data@ =~= start + ser_list(self@));
            },
            None => {
                assert(false);
            },
        }
    }
}

} // verus!
