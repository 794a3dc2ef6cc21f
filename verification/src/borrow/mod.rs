//! The borrowed variant of NBT. This is useful if you're only reading data
//! and you can keep a reference to the original buffer.
//!
//! Reading builds a tape (see [`tape`]) that points into the data; the tags
//! handed out are views of the tape and the data.

pub mod compound;
pub mod cursor;
pub mod equality;
pub mod layout;
pub mod list;
pub mod tape;

use vstd::prelude::*;

pub use self::compound::NbtCompound;
use self::layout::{agree, data_at, span_of, tape_list, tape_tag, value_of};
use self::tape::elem_kind_id;
pub use self::list::NbtList;
use self::tape::{lemma_make_elem, MainTape, TapeElement, TapeTagKind};
use crate::common::{
    read_string, read_with_u32_length, END_ID, write_i32_array, write_i64_array, write_string,
    write_u16, write_u32, write_u64, write_with_u32_length, BYTE_ARRAY_ID, BYTE_ID, COMPOUND_ID, DOUBLE_ID, FLOAT_ID,
    INT_ARRAY_ID, INT_ID, LIST_ID, LONG_ARRAY_ID, LONG_ID, MAX_DEPTH, SHORT_ID, STRING_ID,
};
use crate::error::Error;
use crate::model::{
    decode_i32s, decode_i64s, parse_string, parse_u32_prefixed, tag_id,
    parse_entries, parse_optional_tag, ser_payload, ser_root, parse_payload, parse_root, parse_tag, parse_unnamed_root,
    TagModel,
};
use crate::mutf8::Mutf8Str;
use crate::reader::{lemma_rest_advance, Reader};
use crate::roundtrip::{lemma_casts, lemma_casts_back};
use crate::swap_endianness::{lemma_numbers_from_be, swap_endianness, u64_at};

verus! {

/// The tape can take what is left of the data: positions fit in an element
/// and spans fit in 32 bits.
pub open spec fn fits(data: Reader, tape: Seq<u64>) -> bool {
    &&& data.data@.len() <= u32::MAX
    &&& tape.len() + data.rest().len() <= u32::MAX
}

/// `new` is `old` with at most `k` elements added at the end.
pub open spec fn grew(old: Seq<u64>, new: Seq<u64>, k: int) -> bool {
    &&& old.len() <= new.len()
    &&& new.len() - old.len() <= k
    &&& agree(old, new, 0, old.len() as int)
}

/// The `u32`-prefixed array at `p`: its element bytes.
pub(crate) fn slice_at<'a>(data: &'a [u8], p: u64, width: usize) -> (r: &'a [u8])
    requires
        p <= data@.len(),
        width <= 8,
        parse_u32_prefixed(data_at(data@, p), width as nat) is Ok,
    ensures
        r@ == value_of(parse_u32_prefixed(data_at(data@, p), width as nat)),
{
    let _n = data.len();
    let mut reader = Reader { data, cur: p as usize };
    assert(reader.rest() =~= data_at(data@, p));
    match read_with_u32_length(&mut reader, width) {
        Ok(s) => s,
        Err(_) => {
            assert(false);
            data
        },
    }
}

/// The string at `p`.
pub(crate) fn string_at<'a>(data: &'a [u8], p: u64) -> (r: Mutf8Str<'a>)
    requires
        p <= data@.len(),
        parse_string(data_at(data@, p)) is Ok,
    ensures
        r@ == value_of(parse_string(data_at(data@, p))),
{
    let _n = data.len();
    let mut reader = Reader { data, cur: p as usize };
    assert(reader.rest() =~= data_at(data@, p));
    match read_string(&mut reader) {
        Ok(s) => s,
        Err(_) => {
            assert(false);
            Mutf8Str::from_slice(data)
        },
    }
}

/// The kind number of tape element `index`.
pub(crate) fn kind_at(tape: &MainTape, index: usize) -> (r: u8)
    requires
        index < tape@.len(),
    ensures
        r == elem_kind_id(tape@[index as int]),
{
    (tape.get(index).u64() >> 56) as u8
}

/// How many elements the tag starting at tape element `index` takes.
pub(crate) fn span_at(tape: &MainTape, index: usize) -> (r: usize)
    requires
        index < tape@.len(),
    ensures
        r == span_of(tape@[index as int]),
{
    let k = kind_at(tape, index);
    if k == 10 || k == 21 || k == 22 {
        tape.get(index).approx_len_and_offset().1 as usize
    } else {
        1
    }
}

/// A tag: a view of a tape and the data it points into.
pub struct NbtTag<'a, 'tape> {
    pub data: &'a [u8],
    pub tape: &'tape MainTape,
    /// The index of the tag's element on the tape.
    pub index: usize,
    pub model: Ghost<TagModel>,
}

impl<'a, 'tape> View for NbtTag<'a, 'tape> {
    type V = TagModel;

    open spec fn view(&self) -> TagModel {
        self.model@
    }
}

impl<'a, 'tape> NbtTag<'a, 'tape> {
    /// The tape holds the tag at `index`.
    pub open spec fn wf(&self) -> bool {
        &&& self.data@.len() <= u32::MAX
        &&& tape_tag(self.tape@, self.data@, self.index as int, self.model@)
    }

    /// Get the numerical ID of the tag type.
    pub fn id(&self) -> (r: u8)
        requires
            self.wf(),
        ensures
            r == tag_id(self@),
    {
        let k = kind_at(self.tape, self.index);
        if k == 0 || k >= 13 {
            LIST_ID
        } else {
            k
        }
    }

    pub fn byte(&self) -> (r: Option<i8>)
        requires
            self.wf(),
        ensures
            r == (match self@ { TagModel::Byte(v) => Some(v), _ => None::<i8> }),
    {
        if kind_at(self.tape, self.index) == 1 {
            Some(self.tape.get(self.index).u8() as i8)
        } else {
            None
        }
    }

    pub fn short(&self) -> (r: Option<i16>)
        requires
            self.wf(),
        ensures
            r == (match self@ { TagModel::Short(v) => Some(v), _ => None::<i16> }),
    {
        if kind_at(self.tape, self.index) == 2 {
            Some(self.tape.get(self.index).u16() as i16)
        } else {
            None
        }
    }

    pub fn int_value(&self) -> (r: Option<i32>)
        requires
            self.wf(),
        ensures
            r == (match self@ { TagModel::Int(v) => Some(v), _ => None::<i32> }),
    {
        if kind_at(self.tape, self.index) == 3 {
            Some(self.tape.get(self.index).u32() as i32)
        } else {
            None
        }
    }

    pub fn long(&self) -> (r: Option<i64>)
        requires
            self.wf(),
        ensures
            r == (match self@ { TagModel::Long(v) => Some(v), _ => None::<i64> }),
    {
        if kind_at(self.tape, self.index) == 4 {
            let p = self.tape.get(self.index).ptr() as usize;
            let v = u64_at(self.data, p);
            proof {
                assert(self.data@.subrange(p as int, p + 8) =~= data_at(self.data@, p as u64).subrange(0, 8));
            }
            Some(v as i64)
        } else {
            None
        }
    }

    /// The IEEE-754 bits of a float tag.
    pub fn float_bits(&self) -> (r: Option<u32>)
        requires
            self.wf(),
        ensures
            r == (match self@ { TagModel::Float(v) => Some(v), _ => None::<u32> }),
    {
        if kind_at(self.tape, self.index) == 5 {
            Some(self.tape.get(self.index).u32())
        } else {
            None
        }
    }

    /// The IEEE-754 bits of a double tag.
    pub fn double_bits(&self) -> (r: Option<u64>)
        requires
            self.wf(),
        ensures
            r == (match self@ { TagModel::Double(v) => Some(v), _ => None::<u64> }),
    {
        if kind_at(self.tape, self.index) == 6 {
            let p = self.tape.get(self.index).ptr() as usize;
            let v = u64_at(self.data, p);
            proof {
                assert(self.data@.subrange(p as int, p + 8) =~= data_at(self.data@, p as u64).subrange(0, 8));
            }
            Some(v)
        } else {
            None
        }
    }

    pub fn byte_array(&self) -> (r: Option<&'a [u8]>)
        requires
            self.wf(),
        ensures
            match self@ {
                TagModel::ByteArray(a) => r matches Some(x) && x@ == a,
                _ => r is None,
            },
    {
        if kind_at(self.tape, self.index) == 7 {
            Some(slice_at(self.data, self.tape.get(self.index).ptr(), 1))
        } else {
            None
        }
    }

    pub fn string(&self) -> (r: Option<Mutf8Str<'a>>)
        requires
            self.wf(),
        ensures
            match self@ {
                TagModel::String(a) => r matches Some(x) && x@ == a,
                _ => r is None,
            },
    {
        if kind_at(self.tape, self.index) == 8 {
            Some(string_at(self.data, self.tape.get(self.index).ptr()))
        } else {
            None
        }
    }

    pub fn list(&self) -> (r: Option<NbtList<'a, 'tape>>)
        requires
            self.wf(),
        ensures
            match self@ {
                TagModel::List(l) => r matches Some(x) && x@ == l && x.wf(),
                _ => r is None,
            },
    {
        let k = kind_at(self.tape, self.index);
        if k == 0 || k >= 13 {
            Some(NbtList { data: self.data, tape: self.tape, index: self.index, model: Ghost(self@->List_0) })
        } else {
            None
        }
    }

    pub fn compound(&self) -> (r: Option<NbtCompound<'a, 'tape>>)
        requires
            self.wf(),
        ensures
            match self@ {
                TagModel::Compound(es) => r matches Some(x) && x@ == es && x.wf(),
                _ => r is None,
            },
    {
        if kind_at(self.tape, self.index) == 10 {
            Some(NbtCompound { data: self.data, tape: self.tape, index: self.index, model: Ghost(self@->Compound_0) })
        } else {
            None
        }
    }

    pub fn int_array(&self) -> (r: Option<Vec<i32>>)
        requires
            self.wf(),
        ensures
            match self@ {
                TagModel::IntArray(a) => r matches Some(x) && x@ == a,
                _ => r is None,
            },
    {
        if kind_at(self.tape, self.index) == 11 {
            let bytes = slice_at(self.data, self.tape.get(self.index).ptr(), 4);
            proof {
                lemma_numbers_from_be(bytes@);
            }
            Some(swap_endianness::<i32>(bytes))
        } else {
            None
        }
    }

    pub fn long_array(&self) -> (r: Option<Vec<i64>>)
        requires
            self.wf(),
        ensures
            match self@ {
                TagModel::LongArray(a) => r matches Some(x) && x@ == a,
                _ => r is None,
            },
    {
        if kind_at(self.tape, self.index) == 12 {
            let bytes = slice_at(self.data, self.tape.get(self.index).ptr(), 8);
            proof {
                lemma_numbers_from_be(bytes@);
            }
            Some(swap_endianness::<i64>(bytes))
        } else {
            None
        }
    }

    /// Writes the tag's payload (not its id or name).
    pub fn write(&self, data: &mut Vec<u8>)
        requires
            self.wf(),
        ensures
            final(data)@ == old(data)@ + ser_payload(self@),
        decreases self@,
    {
        let k = kind_at(self.tape, self.index);
        if k == 1 {
            data.push(self.tape.get(self.index).u8());
            proof {
                lemma_casts_back(self.tape@[self.index as int] as u8, 0, 0, 0);
            }
            assert(data@ =~= old(data)@ + ser_payload(self@));
        } else if k == 2 {
            write_u16(data, self.tape.get(self.index).u16());
            proof {
                lemma_casts_back(0, self.tape@[self.index as int] as u16, 0, 0);
            }
        } else if k == 3 {
            write_u32(data, self.tape.get(self.index).u32());
            proof {
                lemma_casts_back(0, 0, self.tape@[self.index as int] as u32, 0);
            }
        } else if k == 5 {
            write_u32(data, self.tape.get(self.index).u32());
        } else if k == 7 {
            let bytes = slice_at(self.data, self.tape.get(self.index).ptr(), 1);
            write_with_u32_length(data, bytes.len(), bytes);
        } else if k == 8 {
            let s = string_at(self.data, self.tape.get(self.index).ptr());
            write_string(data, s);
        } else if k == 10 {
            match self.compound() {
                Some(c) => {
                    proof {
                        assert(decreases_to!(self@ => c@));
                    }
                    c.write(data);
                },
                None => {
                    assert(false);
                },
            }
        } else if k == 0 || k >= 13 {
            match self.list() {
                Some(l) => {
                    proof {
                        assert(decreases_to!(self@ => l@));
                    }
                    l.write(data);
                },
                None => {
                    assert(false);
                },
            }
        } else {
            match self.long() {
                Some(v) => {
                    write_u64(data, v as u64);
                },
                None => match self.double_bits() {
                    Some(v) => write_u64(data, v),
                    None => match self.int_array() {
                        Some(v) => {
                            write_u32(data, #[verifier::truncate] (v.len() as u32));
                            write_i32_array(data, v.as_slice());
                            assert(data@ =~= old(data)@ + ser_payload(self@));
                        },
                        None => match self.long_array() {
                            Some(v) => {
                                write_u32(data, #[verifier::truncate] (v.len() as u32));
                                write_i64_array(data, v.as_slice());
                                assert(data@ =~= old(data)@ + ser_payload(self@));
                            },
                            None => {
                                assert(false);
                            },
                        },
                    },
                },
            }
        }
    }

    /// An owned copy of the tag.
    pub fn to_owned(&self) -> (r: crate::owned::Tag)
        requires
            self.wf(),
        ensures
            r@ == self@,
        decreases self@,
    {
        let k = kind_at(self.tape, self.index);
        if k == 1 {
            crate::owned::Tag::Byte(self.tape.get(self.index).u8() as i8)
        } else if k == 2 {
            crate::owned::Tag::Short(self.tape.get(self.index).u16() as i16)
        } else if k == 3 {
            crate::owned::Tag::Int(self.tape.get(self.index).u32() as i32)
        } else if k == 5 {
            crate::owned::Tag::Float(self.tape.get(self.index).u32())
        } else if k == 7 {
            let bytes = slice_at(self.data, self.tape.get(self.index).ptr(), 1);
            crate::owned::Tag::ByteArray(crate::mutf8::bytes_to_vec(bytes))
        } else if k == 8 {
            let s = string_at(self.data, self.tape.get(self.index).ptr());
            crate::owned::Tag::String(s.to_owned())
        } else if k == 10 {
            match self.compound() {
                Some(c) => {
                    proof {
                        assert(decreases_to!(self@ => c@));
                    }
                    crate::owned::Tag::Compound(c.to_owned())
                },
                None => {
                    assert(false);
                    crate::owned::Tag::Byte(0)
                },
            }
        } else if k == 0 || k >= 13 {
            match self.list() {
                Some(l) => {
                    proof {
                        assert(decreases_to!(self@ => l@));
                    }
                    crate::owned::Tag::List(l.to_owned())
                },
                None => {
                    assert(false);
                    crate::owned::Tag::Byte(0)
                },
            }
        } else {
            match self.long() {
                Some(v) => crate::owned::Tag::Long(v),
                None => match self.double_bits() {
                    Some(v) => crate::owned::Tag::Double(v),
                    None => match self.int_array() {
                        Some(v) => crate::owned::Tag::IntArray(v),
                        None => match self.long_array() {
                            Some(v) => crate::owned::Tag::LongArray(v),
                            None => {
                                assert(false);
                                crate::owned::Tag::Byte(0)
                            },
                        },
                    },
                },
            }
        }
    }

    /// Reads the payload of a tag of type `tag_type` inside a container at
    /// `depth`, pushing its elements to the tape.
    pub fn read_with_type(data: &mut Reader<'a>, tape: &mut MainTape, tag_type: u8, depth: usize) -> (r: Result<(), Error>)
        requires
            old(data).wf(),
            fits(*old(data), old(tape)@),
        ensures
            final(data).wf(),
            match parse_payload(old(data).rest(), depth as int, tag_type) {
                Ok((m, k)) => {
                    &&& r is Ok
                    &&& final(data).advanced(*old(data), k)
                    &&& grew(old(tape)@, final(tape)@, k)
                    &&& tape_tag(final(tape)@, old(data).data@, old(tape)@.len() as int, m)
                    &&& old(tape)@.len() + span_of(final(tape)@[old(tape)@.len() as int]) == final(tape)@.len()
                },
                Err(e) => {
                    &&& r == Err::<(), Error>(e)
                    &&& tag_type != LIST_ID && tag_type != COMPOUND_ID ==> final(tape)@ == old(tape)@
                },
            },
        decreases old(data).rest().len(), 1nat,
    {
        let ghost i = tape@.len();
        let p = data.cur as u64;
        if tag_type == BYTE_ID {
            let v = data.read_i8()?;
            tape.push(TapeElement::new_with_u8(TapeTagKind::Byte, v as u8));
            proof {
                lemma_make_elem(1, (v as u8) as u64);
                lemma_casts(v, 0, 0, 0);
            }
        } else if tag_type == SHORT_ID {
            let v = data.read_i16()?;
            tape.push(TapeElement::new_with_u16(TapeTagKind::Short, v as u16));
            proof {
                lemma_make_elem(2, (v as u16) as u64);
                lemma_casts(0, v, 0, 0);
            }
        } else if tag_type == INT_ID {
            let v = data.read_i32()?;
            tape.push(TapeElement::new_with_u32(TapeTagKind::Int, v as u32));
            proof {
                lemma_make_elem(3, (v as u32) as u64);
                lemma_casts(0, 0, v, 0);
            }
        } else if tag_type == LONG_ID {
            data.skip(8)?;
            tape.push(TapeElement::new_with_ptr(TapeTagKind::Long, p));
            proof {
                lemma_make_elem(4, p);
            }
        } else if tag_type == FLOAT_ID {
            let v = data.read_u32()?;
            tape.push(TapeElement::new_with_u32(TapeTagKind::Float, v));
            proof {
                lemma_make_elem(5, v as u64);
            }
        } else if tag_type == DOUBLE_ID {
            data.skip(8)?;
            tape.push(TapeElement::new_with_ptr(TapeTagKind::Double, p));
            proof {
                lemma_make_elem(6, p);
            }
        } else if tag_type == BYTE_ARRAY_ID {
            read_with_u32_length(data, 1)?;
            tape.push(TapeElement::new_with_ptr(TapeTagKind::ByteArray, p));
            proof {
                lemma_make_elem(7, p);
            }
        } else if tag_type == STRING_ID {
            read_string(data)?;
            tape.push(TapeElement::new_with_ptr(TapeTagKind::String, p));
            proof {
                lemma_make_elem(8, p);
            }
        } else if tag_type == LIST_ID {
            return NbtList::read(data, tape, depth);
        } else if tag_type == COMPOUND_ID {
            if depth >= MAX_DEPTH - 1 {
                return Err(Error::MaxDepthExceeded);
            }
            return NbtCompound::read_with_depth(data, tape, depth + 1);
        } else if tag_type == INT_ARRAY_ID {
            read_with_u32_length(data, 4)?;
            tape.push(TapeElement::new_with_ptr(TapeTagKind::IntArray, p));
            proof {
                lemma_make_elem(11, p);
            }
        } else if tag_type == LONG_ARRAY_ID {
            read_with_u32_length(data, 8)?;
            tape.push(TapeElement::new_with_ptr(TapeTagKind::LongArray, p));
            proof {
                lemma_make_elem(12, p);
            }
        } else {
            return Err(Error::UnknownTagId(tag_type));
        }
        proof {
            assert(old(data).rest() =~= layout::data_at(old(data).data@, p));
        }
        Ok(())
    }
}

/// The tape and data left after reading holds the tag `m` at the start of
/// the tape.
pub open spec fn holds(tapes: MainTape, data: &[u8], m: TagModel) -> bool {
    &&& data@.len() <= u32::MAX
    &&& tape_tag(tapes@, data@, 0, m)
}

/// A complete NBT container. This contains a name and a compound tag.
pub struct BaseNbt<'a> {
    pub name: Mutf8Str<'a>,
    pub data: &'a [u8],
    pub tapes: MainTape,
    pub model: Ghost<Seq<(Seq<u8>, TagModel)>>,
}

impl<'a> View for BaseNbt<'a> {
    type V = (Seq<u8>, Seq<(Seq<u8>, TagModel)>);

    open spec fn view(&self) -> (Seq<u8>, Seq<(Seq<u8>, TagModel)>) {
        (self.name@, self.model@)
    }
}

impl<'a> BaseNbt<'a> {
    pub open spec fn wf(&self) -> bool {
        holds(self.tapes, self.data, TagModel::Compound(self.model@))
    }

    /// The root compound.
    pub fn compound<'tape>(&'tape self) -> (r: NbtCompound<'a, 'tape>)
        requires
            self.wf(),
        ensures
            r.wf(),
            r@ == self@.1,
    {
        NbtCompound { data: self.data, tape: &self.tapes, index: 0, model: Ghost(self.model@) }
    }

    /// Writes the container: the compound tag id, the name and the compound.
    pub fn write(&self, data: &mut Vec<u8>)
        requires
            self.wf(),
        ensures
            final(data)@ == old(data)@ + ser_root(self@.0, self@.1),
    {
        data.push(COMPOUND_ID);
        write_string(data, self.name);
        self.compound().write(data);
        assert(data@ =~= old(data)@ + ser_root(self@.0, self@.1));
    }

    /// Get the name of the NBT compound. This is often an empty string.
    pub fn name(&self) -> (r: Mutf8Str<'a>)
        ensures
            r@ == self@.0,
    {
        self.name
    }
}

/// A nameless NBT container. This only contains a compound tag.
pub struct BaseNbtCompound<'a> {
    pub data: &'a [u8],
    pub tapes: MainTape,
    pub model: Ghost<Seq<(Seq<u8>, TagModel)>>,
}

impl<'a> View for BaseNbtCompound<'a> {
    type V = Seq<(Seq<u8>, TagModel)>;

    open spec fn view(&self) -> Seq<(Seq<u8>, TagModel)> {
        self.model@
    }
}

impl<'a> BaseNbtCompound<'a> {
    pub open spec fn wf(&self) -> bool {
        holds(self.tapes, self.data, TagModel::Compound(self.model@))
    }

    /// The compound.
    pub fn compound<'tape>(&'tape self) -> (r: NbtCompound<'a, 'tape>)
        requires
            self.wf(),
        ensures
            r.wf(),
            r@ == self@,
    {
        NbtCompound { data: self.data, tape: &self.tapes, index: 0, model: Ghost(self.model@) }
    }
}

/// A nameless NBT tag.
pub struct BaseNbtTag<'a> {
    pub data: &'a [u8],
    pub tapes: MainTape,
    pub model: Ghost<TagModel>,
}

impl<'a> View for BaseNbtTag<'a> {
    type V = TagModel;

    open spec fn view(&self) -> TagModel {
        self.model@
    }
}

impl<'a> BaseNbtTag<'a> {
    pub open spec fn wf(&self) -> bool {
        holds(self.tapes, self.data, self.model@)
    }

    /// The tag.
    pub fn as_tag<'tape>(&'tape self) -> (r: NbtTag<'a, 'tape>)
        requires
            self.wf(),
        ensures
            r.wf(),
            r@ == self@,
    {
        NbtTag { data: self.data, tape: &self.tapes, index: 0, model: Ghost(self.model@) }
    }

    /// The tag as a compound; it must be one.
    pub fn compound<'tape>(&'tape self) -> (r: NbtCompound<'a, 'tape>)
        requires
            self.wf(),
            self@ is Compound,
        ensures
            r.wf(),
            self@ == TagModel::Compound(r@),
    {
        NbtCompound { data: self.data, tape: &self.tapes, index: 0, model: Ghost(self.model@->Compound_0) }
    }
}

/// Either a complete NBT container, or nothing.
pub enum Nbt<'a> {
    Root(BaseNbt<'a>),
    Empty,
}

impl<'a> View for Nbt<'a> {
    type V = Option<(Seq<u8>, Seq<(Seq<u8>, TagModel)>)>;

    open spec fn view(&self) -> Option<(Seq<u8>, Seq<(Seq<u8>, TagModel)>)> {
        match self {
            Nbt::Root(b) => Some(b@),
            Nbt::Empty => None,
        }
    }
}

impl<'a> Nbt<'a> {
    pub open spec fn wf(&self) -> bool {
        match self {
            Nbt::Root(b) => b.wf(),
            Nbt::Empty => true,
        }
    }

    /// The container; there must be one.
    pub fn unwrap(self) -> (r: BaseNbt<'a>)
        requires
            self is Root,
        ensures
            self@ == Some(r@),
            self.wf() ==> r.wf(),
    {
        match self {
            Nbt::Root(nbt) => nbt,
            Nbt::Empty => {
                assert(false);
                unreached()
            },
        }
    }

    pub fn is_some(&self) -> (r: bool)
        ensures
            r <==> self@ is Some,
    {
        match self {
            Nbt::Root(_) => true,
            Nbt::Empty => false,
        }
    }

    /// Writes the container, or for nothing a single end tag.
    pub fn write(&self, data: &mut Vec<u8>)
        requires
            self.wf(),
        ensures
            match self@ {
                Some((name, es)) => final(data)@ == old(data)@ + ser_root(name, es),
                None => final(data)@ == old(data)@.push(END_ID),
            },
    {
        match self {
            Nbt::Root(nbt) => nbt.write(data),
            Nbt::Empty => data.push(END_ID),
        }
    }

    pub fn is_none(&self) -> (r: bool)
        ensures
            r <==> self@ is None,
    {
        !self.is_some()
    }
}

/// Reads the named tags of a compound at depth 1 onto a fresh tape.
fn read_root_compound<'a>(data: &mut Reader<'a>) -> (r: Result<(MainTape, Ghost<Seq<(Seq<u8>, TagModel)>>), Error>)
    requires
        old(data).wf(),
        old(data).data@.len() <= u32::MAX,
    ensures
        final(data).wf(),
        match parse_entries(old(data).rest(), 1) {
            Ok((es, k)) => r matches Ok((t, g)) && g@ == es && final(data).advanced(*old(data), k)
                && tape_tag(t@, old(data).data@, 0, TagModel::Compound(es)),
            Err(e) => r is Err && r->Err_0 == e,
        },
{
    let mut tape = MainTape::new();
    match NbtCompound::read_with_depth(data, &mut tape, 1) {
        Ok(()) => {
            let ghost es = crate::borrow::layout::value_of(parse_entries(old(data).rest(), 1));
            Ok((tape, Ghost(es)))
        },
        Err(e) => Err(e),
    }
}

/// Read a normal root NBT compound. This is either empty or has a name and
/// compound tag.
///
/// Returns `Ok(Nbt::Empty)` if there is no data.
pub fn read<'a>(data: &mut Reader<'a>) -> (r: Result<Nbt<'a>, Error>)
    requires
        old(data).wf(),
        old(data).data@.len() <= u32::MAX,
    ensures
        final(data).wf(),
        match parse_root(old(data).rest()) {
            Ok((m, k)) => r matches Ok(n) && n@ == m && n.wf() && final(data).advanced(*old(data), k),
            Err(e) => r is Err && r->Err_0 == e,
        },
{
    let ghost start = *data;
    let root_type = data.read_u8()?;
    if root_type == END_ID {
        return Ok(Nbt::Empty);
    }
    if root_type != COMPOUND_ID {
        return Err(Error::InvalidRootType(root_type));
    }
    let ghost after_type = *data;
    proof {
        lemma_rest_advance(start, after_type, 1);
    }
    let name = read_string(data)?;
    proof {
        lemma_rest_advance(after_type, *data, data.cur - after_type.cur);
        assert(data.rest() =~= start.rest().subrange(1 + (data.cur - after_type.cur), start.rest().len() as int));
    }
    let (tapes, model) = read_root_compound(data)?;
    Ok(Nbt::Root(BaseNbt { name, data: data.data, tapes, model }))
}

/// Read a root NBT compound, but without reading the name. This is used in
/// Minecraft when reading NBT over the network.
pub fn read_unnamed<'a>(data: &mut Reader<'a>) -> (r: Result<Nbt<'a>, Error>)
    requires
        old(data).wf(),
        old(data).data@.len() <= u32::MAX,
    ensures
        final(data).wf(),
        match parse_unnamed_root(old(data).rest()) {
            Ok((m, k)) => r matches Ok(n) && final(data).advanced(*old(data), k) && n.wf() && match m {
                Some(es) => n@ == Some((Seq::<u8>::empty(), es)),
                None => n@ is None,
            },
            Err(e) => r is Err && r->Err_0 == e,
        },
{
    let ghost start = *data;
    let root_type = data.read_u8()?;
    if root_type == END_ID {
        return Ok(Nbt::Empty);
    }
    if root_type != COMPOUND_ID {
        return Err(Error::InvalidRootType(root_type));
    }
    proof {
        lemma_rest_advance(start, *data, 1);
    }
    let (tapes, model) = read_root_compound(data)?;
    let empty: &'a [u8] = vstd::slice::slice_subrange(data.data, 0, 0);
    let name = Mutf8Str::from_slice(empty);
    proof {
        assert(name@ =~= Seq::<u8>::empty());
    }
    Ok(Nbt::Root(BaseNbt { name, data: data.data, tapes, model }))
}

/// Read a compound tag. This may have any number of items.
pub fn read_compound<'a>(data: &mut Reader<'a>) -> (r: Result<BaseNbtCompound<'a>, Error>)
    requires
        old(data).wf(),
        old(data).data@.len() <= u32::MAX,
    ensures
        final(data).wf(),
        match parse_entries(old(data).rest(), 1) {
            Ok((es, k)) => r matches Ok(c) && c@ == es && c.wf() && final(data).advanced(*old(data), k),
            Err(e) => r is Err && r->Err_0 == e,
        },
{
    let (tapes, model) = read_root_compound(data)?;
    Ok(BaseNbtCompound { data: data.data, tapes, model })
}

/// Read any NBT tag, without reading its name. This may be any type of tag,
/// including an end tag.
///
/// Returns `Ok(None)` if there is no data.
pub fn read_optional_tag<'a>(data: &mut Reader<'a>) -> (r: Result<Option<BaseNbtTag<'a>>, Error>)
    requires
        old(data).wf(),
        old(data).data@.len() <= u32::MAX,
    ensures
        final(data).wf(),
        match parse_optional_tag(old(data).rest()) {
            Ok((m, k)) => r is Ok && final(data).advanced(*old(data), k) && match m {
                Some(t) => r->Ok_0 matches Some(b) && b@ == t && b.wf(),
                None => r->Ok_0 is None,
            },
            Err(e) => r is Err && r->Err_0 == e,
        },
{
    let ghost start = *data;
    let tag_type = data.read_u8()?;
    if tag_type == END_ID {
        return Ok(None);
    }
    proof {
        lemma_rest_advance(start, *data, 1);
    }
    let mut tapes = MainTape::new();
    NbtTag::read_with_type(data, &mut tapes, tag_type, 0)?;
    let ghost m = crate::borrow::layout::value_of(parse_payload(start.rest().subrange(1, start.rest().len() as int), 0, tag_type));
    Ok(Some(BaseNbtTag { data: data.data, tapes, model: Ghost(m) }))
}

/// Read an NBT tag, without reading its name. This may be any type of tag
/// except for an end tag.
pub fn read_tag<'a>(data: &mut Reader<'a>) -> (r: Result<BaseNbtTag<'a>, Error>)
    requires
        old(data).wf(),
        old(data).data@.len() <= u32::MAX,
    ensures
        final(data).wf(),
        match parse_tag(old(data).rest()) {
            Ok((t, k)) => r matches Ok(b) && b@ == t && b.wf() && final(data).advanced(*old(data), k),
            Err(e) => r is Err && r->Err_0 == e,
        },
{
    match read_optional_tag(data)? {
        Some(t) => Ok(t),
        None => Err(Error::InvalidRootType(END_ID)),
    }
}

} // verus!
