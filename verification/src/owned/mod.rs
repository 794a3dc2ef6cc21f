//! The owned variant of NBT. This is useful if you're writing data from
//! scratch or if you can't keep a reference to the original data.

pub mod compound;
pub mod format;
pub mod list;
pub mod roundtrip;

use vstd::prelude::*;

use crate::common::{
    END_ID, read_string, read_with_u32_length, write_i32_array, write_i64_array, write_i64,
    write_string, write_u16, write_u32, write_u64, write_with_u32_length, BYTE_ARRAY_ID,
    BYTE_ID, COMPOUND_ID, DOUBLE_ID, FLOAT_ID, INT_ARRAY_ID, INT_ID, LIST_ID, LONG_ARRAY_ID,
    LONG_ID, MAX_DEPTH, SHORT_ID, STRING_ID,
};
use crate::error::Error;
use crate::model::{
    parse_payload, parse_root, ser_payload, ser_root, tag_id, ListModel, TagModel,
};
use crate::mutf8::{Mutf8Str, Mutf8String};
use self::format::{owned_parse_payload, owned_parse_root};
use self::roundtrip::{lemma_owned_rt_root, owned_wf_entries};
use crate::reader::{parsed_as, Reader};
use crate::swap_endianness::{lemma_numbers_from_be, swap_endianness};

pub use self::compound::CompoundTag;
pub use self::list::ListTag;

verus! {

/// A single NBT tag. Floats are held as their IEEE-754 bits.
#[derive(Debug, PartialEq)]
pub enum Tag {
    Byte(i8),
    Short(i16),
    Int(i32),
    Long(i64),
    Float(u32),
    Double(u64),
    ByteArray(Vec<u8>),
    String(Mutf8String),
    List(ListTag),
    Compound(CompoundTag),
    IntArray(Vec<i32>),
    LongArray(Vec<i64>),
}

/// The model of a tag.
pub open spec fn tag_model(t: Tag) -> TagModel
    decreases t,
{
    match t {
        Tag::Byte(v) => TagModel::Byte(v),
        Tag::Short(v) => TagModel::Short(v),
        Tag::Int(v) => TagModel::Int(v),
        Tag::Long(v) => TagModel::Long(v),
        Tag::Float(v) => TagModel::Float(v),
        Tag::Double(v) => TagModel::Double(v),
        Tag::ByteArray(v) => TagModel::ByteArray(v@),
        Tag::String(v) => TagModel::String(v@),
        Tag::List(l) => TagModel::List(list_model(l)),
        Tag::Compound(c) => TagModel::Compound(entries_model(c.values@)),
        Tag::IntArray(v) => TagModel::IntArray(v@),
        Tag::LongArray(v) => TagModel::LongArray(v@),
    }
}

/// The model of named tags, in order.
pub open spec fn entries_model(v: Seq<(Mutf8String, Tag)>) -> Seq<(Seq<u8>, TagModel)>
    decreases v,
{
    if v.len() == 0 {
        seq![]
    } else {
        entries_model(v.drop_last()).push((v.last().0@, tag_model(v.last().1)))
    }
}

/// The model of a list.
pub open spec fn list_model(l: ListTag) -> ListModel
    decreases l,
{
    match l {
        ListTag::Empty => ListModel::Empty,
        ListTag::Byte(v) => ListModel::Byte(v@),
        ListTag::Short(v) => ListModel::Short(v@),
        ListTag::Int(v) => ListModel::Int(v@),
        ListTag::Long(v) => ListModel::Long(v@),
        ListTag::Float(v) => ListModel::Float(v@),
        ListTag::Double(v) => ListModel::Double(v@),
        ListTag::ByteArray(v) => ListModel::ByteArray(v@.map_values(|a: Vec<u8>| a@)),
        ListTag::String(v) => ListModel::String(v@.map_values(|a: Mutf8String| a@)),
        ListTag::List(v) => ListModel::List(lists_model(v@)),
        ListTag::Compound(v) => ListModel::Compound(compounds_model(v@)),
        ListTag::IntArray(v) => ListModel::IntArray(v@.map_values(|a: Vec<i32>| a@)),
        ListTag::LongArray(v) => ListModel::LongArray(v@.map_values(|a: Vec<i64>| a@)),
    }
}

/// The models of lists, in order.
pub open spec fn lists_model(v: Seq<ListTag>) -> Seq<ListModel>
    decreases v,
{
    if v.len() == 0 {
        seq![]
    } else {
        lists_model(v.drop_last()).push(list_model(v.last()))
    }
}

/// The models of compounds, in order.
pub open spec fn compounds_model(v: Seq<CompoundTag>) -> Seq<Seq<(Seq<u8>, TagModel)>>
    decreases v,
{
    if v.len() == 0 {
        seq![]
    } else {
        compounds_model(v.drop_last()).push(entries_model(v.last().values@))
    }
}

impl View for Tag {
    type V = TagModel;

    open spec fn view(&self) -> TagModel {
        tag_model(*self)
    }
}

pub proof fn lemma_entries_model(v: Seq<(Mutf8String, Tag)>)
    ensures
        entries_model(v).len() == v.len(),
        forall|i: int| 0 <= i < v.len() ==> #[trigger] entries_model(v)[i] == (v[i].0@, tag_model(v[i].1)),
    decreases v.len(),
{
    if v.len() > 0 {
        lemma_entries_model(v.drop_last());
    }
}

pub proof fn lemma_lists_model(v: Seq<ListTag>)
    ensures
        lists_model(v).len() == v.len(),
        forall|i: int| 0 <= i < v.len() ==> #[trigger] lists_model(v)[i] == list_model(v[i]),
    decreases v.len(),
{
    if v.len() > 0 {
        lemma_lists_model(v.drop_last());
    }
}

pub proof fn lemma_compounds_model(v: Seq<CompoundTag>)
    ensures
        compounds_model(v).len() == v.len(),
        forall|i: int| 0 <= i < v.len() ==> #[trigger] compounds_model(v)[i] == entries_model(v[i].values@),
    decreases v.len(),
{
    if v.len() > 0 {
        lemma_compounds_model(v.drop_last());
    }
}

impl Tag {
    /// Get the numerical ID of the tag type.
    pub fn id(&self) -> (r: u8)
        ensures
            r == tag_id(self@),
    {
        match self {
            Tag::Byte(_) => BYTE_ID,
            Tag::Short(_) => SHORT_ID,
            Tag::Int(_) => INT_ID,
            Tag::Long(_) => LONG_ID,
            Tag::Float(_) => FLOAT_ID,
            Tag::Double(_) => DOUBLE_ID,
            Tag::ByteArray(_) => BYTE_ARRAY_ID,
            Tag::String(_) => STRING_ID,
            Tag::List(_) => LIST_ID,
            Tag::Compound(_) => COMPOUND_ID,
            Tag::IntArray(_) => INT_ARRAY_ID,
            Tag::LongArray(_) => LONG_ARRAY_ID,
        }
    }

    /// Reads the payload of a tag of type `tag_type` inside a compound at
    /// `depth`; a list or compound payload is one deeper.
    pub fn read_with_type(data: &mut Reader<'_>, tag_type: u8, depth: usize) -> (r: Result<Tag, Error>)
        requires
            old(data).wf(),
        ensures
            final(data).wf(),
            final(data).data == old(data).data,
            parsed_as(r, owned_parse_payload(old(data).rest(), depth as int, tag_type), *old(data), *final(data)),
        decreases old(data).rest().len(), 1nat,
    {
        if tag_type == BYTE_ID {
            Ok(Tag::Byte(data.read_i8()?))
        } else if tag_type == SHORT_ID {
            Ok(Tag::Short(data.read_i16()?))
        } else if tag_type == INT_ID {
            Ok(Tag::Int(data.read_i32()?))
        } else if tag_type == LONG_ID {
            Ok(Tag::Long(data.read_i64()?))
        } else if tag_type == FLOAT_ID {
            Ok(Tag::Float(data.read_u32()?))
        } else if tag_type == DOUBLE_ID {
            Ok(Tag::Double(data.read_u64()?))
        } else if tag_type == BYTE_ARRAY_ID {
            let bytes = read_with_u32_length(data, 1)?;
            Ok(Tag::ByteArray(crate::mutf8::bytes_to_vec(bytes)))
        } else if tag_type == STRING_ID {
            let s = read_string(data)?;
            Ok(Tag::String(s.to_owned()))
        } else if tag_type == LIST_ID {
            if depth >= MAX_DEPTH {
                return Err(Error::MaxDepthExceeded);
            }
            Ok(Tag::List(ListTag::new(data, depth + 1)?))
        } else if tag_type == COMPOUND_ID {
            if depth >= MAX_DEPTH {
                return Err(Error::MaxDepthExceeded);
            }
            Ok(Tag::Compound(CompoundTag::new(data, depth + 1)?))
        } else if tag_type == INT_ARRAY_ID {
            let bytes = read_with_u32_length(data, 4)?;
            proof {
                lemma_numbers_from_be(bytes@);
            }
            Ok(Tag::IntArray(swap_endianness::<i32>(bytes)))
        } else if tag_type == LONG_ARRAY_ID {
            let bytes = read_with_u32_length(data, 8)?;
            proof {
                lemma_numbers_from_be(bytes@);
            }
            Ok(Tag::LongArray(swap_endianness::<i64>(bytes)))
        } else {
            Err(Error::UnknownTagId(tag_type))
        }
    }

    /// The byte held, to change in place.
    pub fn byte_mut(&mut self) -> (r: Option<&mut i8>)
        ensures
            match *old(self) {
                Tag::Byte(v) => r is Some && *r->Some_0 == v && *final(self) == Tag::Byte(*final(r->Some_0)),
                _ => r is None && *final(self) == *old(self),
            },
    {
        match self {
            Tag::Byte(v) => Some(v),
            _ => None,
        }
    }

    /// The short held, to change in place.
    pub fn short_mut(&mut self) -> (r: Option<&mut i16>)
        ensures
            match *old(self) {
                Tag::Short(v) => r is Some && *r->Some_0 == v && *final(self) == Tag::Short(*final(r->Some_0)),
                _ => r is None && *final(self) == *old(self),
            },
    {
        match self {
            Tag::Short(v) => Some(v),
            _ => None,
        }
    }

    /// The int held, to change in place.
    pub fn int_mut(&mut self) -> (r: Option<&mut i32>)
        ensures
            match *old(self) {
                Tag::Int(v) => r is Some && *r->Some_0 == v && *final(self) == Tag::Int(*final(r->Some_0)),
                _ => r is None && *final(self) == *old(self),
            },
    {
        match self {
            Tag::Int(v) => Some(v),
            _ => None,
        }
    }

    /// The long held, to change in place.
    pub fn long_mut(&mut self) -> (r: Option<&mut i64>)
        ensures
            match *old(self) {
                Tag::Long(v) => r is Some && *r->Some_0 == v && *final(self) == Tag::Long(*final(r->Some_0)),
                _ => r is None && *final(self) == *old(self),
            },
    {
        match self {
            Tag::Long(v) => Some(v),
            _ => None,
        }
    }

    /// The IEEE-754 bits of the float held, to change in place.
    pub fn float_bits_mut(&mut self) -> (r: Option<&mut u32>)
        ensures
            match *old(self) {
                Tag::Float(v) => r is Some && *r->Some_0 == v && *final(self) == Tag::Float(*final(r->Some_0)),
                _ => r is None && *final(self) == *old(self),
            },
    {
        match self {
            Tag::Float(v) => Some(v),
            _ => None,
        }
    }

    /// The IEEE-754 bits of the double held, to change in place.
    pub fn double_bits_mut(&mut self) -> (r: Option<&mut u64>)
        ensures
            match *old(self) {
                Tag::Double(v) => r is Some && *r->Some_0 == v && *final(self) == Tag::Double(*final(r->Some_0)),
                _ => r is None && *final(self) == *old(self),
            },
    {
        match self {
            Tag::Double(v) => Some(v),
            _ => None,
        }
    }

    /// The byte array held, to change in place.
    pub fn byte_array_mut(&mut self) -> (r: Option<&mut Vec<u8>>)
        ensures
            match *old(self) {
                Tag::ByteArray(v) => r is Some && *r->Some_0 == v && *final(self) == Tag::ByteArray(*final(r->Some_0)),
                _ => r is None && *final(self) == *old(self),
            },
    {
        match self {
            Tag::ByteArray(v) => Some(v),
            _ => None,
        }
    }

    /// The string held, to change in place.
    pub fn string_mut(&mut self) -> (r: Option<&mut Mutf8String>)
        ensures
            match *old(self) {
                Tag::String(v) => r is Some && *r->Some_0 == v && *final(self) == Tag::String(*final(r->Some_0)),
                _ => r is None && *final(self) == *old(self),
            },
    {
        match self {
            Tag::String(v) => Some(v),
            _ => None,
        }
    }

    /// The list held, to change in place.
    pub fn list_mut(&mut self) -> (r: Option<&mut ListTag>)
        ensures
            match *old(self) {
                Tag::List(v) => r is Some && *r->Some_0 == v && *final(self) == Tag::List(*final(r->Some_0)),
                _ => r is None && *final(self) == *old(self),
            },
    {
        match self {
            Tag::List(v) => Some(v),
            _ => None,
        }
    }

    /// The compound held, to change in place.
    pub fn compound_mut(&mut self) -> (r: Option<&mut CompoundTag>)
        ensures
            match *old(self) {
                Tag::Compound(v) => r is Some && *r->Some_0 == v && *final(self) == Tag::Compound(*final(r->Some_0)),
                _ => r is None && *final(self) == *old(self),
            },
    {
        match self {
            Tag::Compound(v) => Some(v),
            _ => None,
        }
    }

    /// The int array held, to change in place.
    pub fn int_array_mut(&mut self) -> (r: Option<&mut Vec<i32>>)
        ensures
            match *old(self) {
                Tag::IntArray(v) => r is Some && *r->Some_0 == v && *final(self) == Tag::IntArray(*final(r->Some_0)),
                _ => r is None && *final(self) == *old(self),
            },
    {
        match self {
            Tag::IntArray(v) => Some(v),
            _ => None,
        }
    }

    /// The long array held, to change in place.
    pub fn long_array_mut(&mut self) -> (r: Option<&mut Vec<i64>>)
        ensures
            match *old(self) {
                Tag::LongArray(v) => r is Some && *r->Some_0 == v && *final(self) == Tag::LongArray(*final(r->Some_0)),
                _ => r is None && *final(self) == *old(self),
            },
    {
        match self {
            Tag::LongArray(v) => Some(v),
            _ => None,
        }
    }

    pub fn byte(&self) -> (r: Option<i8>)
        ensures
            r == (match self@ { TagModel::Byte(v) => Some(v), _ => None::<i8> }),
    {
        match self {
            Tag::Byte(v) => Some(*v),
            _ => None,
        }
    }

    pub fn short(&self) -> (r: Option<i16>)
        ensures
            r == (match self@ { TagModel::Short(v) => Some(v), _ => None::<i16> }),
    {
        match self {
            Tag::Short(v) => Some(*v),
            _ => None,
        }
    }

    pub fn int_value(&self) -> (r: Option<i32>)
        ensures
            r == (match self@ { TagModel::Int(v) => Some(v), _ => None::<i32> }),
    {
        match self {
            Tag::Int(v) => Some(*v),
            _ => None,
        }
    }

    pub fn long(&self) -> (r: Option<i64>)
        ensures
            r == (match self@ { TagModel::Long(v) => Some(v), _ => None::<i64> }),
    {
        match self {
            Tag::Long(v) => Some(*v),
            _ => None,
        }
    }

    /// The IEEE-754 bits of a float tag.
    pub fn float_bits(&self) -> (r: Option<u32>)
        ensures
            r == (match self@ { TagModel::Float(v) => Some(v), _ => None::<u32> }),
    {
        match self {
            Tag::Float(v) => Some(*v),
            _ => None,
        }
    }

    /// The IEEE-754 bits of a double tag.
    pub fn double_bits(&self) -> (r: Option<u64>)
        ensures
            r == (match self@ { TagModel::Double(v) => Some(v), _ => None::<u64> }),
    {
        match self {
            Tag::Double(v) => Some(*v),
            _ => None,
        }
    }

    pub fn byte_array(&self) -> (r: Option<&[u8]>)
        ensures
            match self@ {
                TagModel::ByteArray(a) => r matches Some(x) && x@ == a,
                _ => r is None,
            },
    {
        match self {
            Tag::ByteArray(v) => Some(v.as_slice()),
            _ => None,
        }
    }

    pub fn string(&self) -> (r: Option<Mutf8Str<'_>>)
        ensures
            match self@ {
                TagModel::String(a) => r matches Some(x) && x@ == a,
                _ => r is None,
            },
    {
        match self {
            Tag::String(v) => Some(v.as_str()),
            _ => None,
        }
    }

    pub fn list(&self) -> (r: Option<&ListTag>)
        ensures
            match self@ {
                TagModel::List(l) => r matches Some(x) && x@ == l,
                _ => r is None,
            },
    {
        match self {
            Tag::List(v) => Some(v),
            _ => None,
        }
    }

    pub fn compound(&self) -> (r: Option<&CompoundTag>)
        ensures
            match self@ {
                TagModel::Compound(es) => r matches Some(x) && x@ == es,
                _ => r is None,
            },
    {
        match self {
            Tag::Compound(v) => Some(v),
            _ => None,
        }
    }

    pub fn int_array(&self) -> (r: Option<&[i32]>)
        ensures
            match self@ {
                TagModel::IntArray(a) => r matches Some(x) && x@ == a,
                _ => r is None,
            },
    {
        match self {
            Tag::IntArray(v) => Some(v.as_slice()),
            _ => None,
        }
    }

    pub fn long_array(&self) -> (r: Option<&[i64]>)
        ensures
            match self@ {
                TagModel::LongArray(a) => r matches Some(x) && x@ == a,
                _ => r is None,
            },
    {
        match self {
            Tag::LongArray(v) => Some(v.as_slice()),
            _ => None,
        }
    }

    /// Writes the tag's payload (not its id or name).
    pub fn write(&self, data: &mut Vec<u8>)
        ensures
            final(data)@ == old(data)@ + ser_payload(self@),
        decreases self,
    {
        match self {
            Tag::Byte(v) => {
                data.push(*v as u8);
                assert(data@ =~= old(data)@ + ser_payload(self@));
            },
            Tag::Short(v) => write_u16(data, *v as u16),
            Tag::Int(v) => write_u32(data, *v as u32),
            Tag::Long(v) => write_i64(data, *v),
            Tag::Float(v) => write_u32(data, *v),
            Tag::Double(v) => write_u64(data, *v),
            Tag::ByteArray(v) => {
                write_with_u32_length(data, v.len(), v.as_slice());
            },
            Tag::String(v) => write_string(data, v.as_str()),
            Tag::List(l) => l.write(data),
            Tag::Compound(c) => c.write(data),
            Tag::IntArray(v) => {
                write_u32(data, v.len() as u32);
                write_i32_array(data, v.as_slice());
                assert(data@ =~= old(data)@ + ser_payload(self@));
            },
            Tag::LongArray(v) => {
                write_u32(data, v.len() as u32);
                write_i64_array(data, v.as_slice());
                assert(data@ =~= old(data)@ + ser_payload(self@));
            },
        }
    }
}

/// A complete NBT container. This contains a name and a compound tag.
#[derive(Debug, PartialEq)]
pub struct Nbt {
    pub name: Mutf8String,
    pub tag: CompoundTag,
}

impl View for Nbt {
    type V = (Seq<u8>, Seq<(Seq<u8>, TagModel)>);

    open spec fn view(&self) -> (Seq<u8>, Seq<(Seq<u8>, TagModel)>) {
        (self.name@, self.tag@)
    }
}

impl Nbt {
    /// The name fits its length prefix and the compound can be written and
    /// read back by the owned reader.
    pub open spec fn wf(&self) -> bool {
        self.name@.len() <= u16::MAX && owned_wf_entries(self.tag@, 0)
    }

    /// Get the name of the NBT compound. This is often an empty string.
    pub fn name(&self) -> (r: Mutf8Str<'_>)
        ensures
            r@ == self@.0,
    {
        self.name.as_str()
    }

    /// The root compound.
    pub fn compound(&self) -> (r: &CompoundTag)
        ensures
            r@ == self@.1,
    {
        &self.tag
    }

    /// Reads NBT from the given data. Returns `Ok(None)` if there is no data.
    pub fn new(data: &mut Reader<'_>) -> (r: Result<Option<Nbt>, Error>)
        requires
            old(data).wf(),
        ensures
            final(data).wf(),
            final(data).data == old(data).data,
            match owned_parse_root(old(data).rest()) {
                Ok((m, k)) => {
                    &&& r is Ok
                    &&& final(data).advanced(*old(data), k)
                    &&& match m {
                        Some(v) => r->Ok_0 matches Some(n) && n@ == v,
                        None => r->Ok_0 is None,
                    }
                },
                Err(e) => r == Err::<Option<Nbt>, Error>(e),
            },
    {
        let ghost start = *data;
        let root_type = data.read_u8()?;
        if root_type == END_ID {
            return Ok(None);
        }
        if root_type != COMPOUND_ID {
            return Err(Error::InvalidRootType(root_type));
        }
        let ghost after_type = *data;
        proof {
            crate::reader::lemma_rest_advance(start, after_type, 1);
        }
        let name = read_string(data)?;
        let ghost after_name = *data;
        proof {
            crate::reader::lemma_rest_advance(after_type, after_name, after_name.cur - after_type.cur);
            assert(after_name.rest() =~= start.rest().subrange(1 + (after_name.cur - after_type.cur), start.rest().len() as int));
        }
        let tag = CompoundTag::new(data, 0)?;
        Ok(Some(Nbt { name: name.to_owned(), tag }))
    }

    /// Writes the NBT to the given buffer.
    pub fn write(&self, data: &mut Vec<u8>)
        ensures
            final(data)@ == old(data)@ + ser_root(self@.0, self@.1),
    {
        data.push(COMPOUND_ID);
        write_string(data, self.name.as_str());
        self.tag.write(data);
        assert(data@ =~= old(data)@ + ser_root(self@.0, self@.1));
    }
}

/// Reading what `Nbt::write` wrote, followed by anything, gives the same NBT
/// back and stops right after it.
pub proof fn lemma_nbt_write_read(nbt: Nbt, rest: Seq<u8>)
    requires
        nbt.wf(),
    ensures
        owned_parse_root(ser_root(nbt@.0, nbt@.1) + rest) == Ok::<(Option<(Seq<u8>, Seq<(Seq<u8>, TagModel)>)>, int), Error>(
            (Some(nbt@), ser_root(nbt@.0, nbt@.1).len() as int),
        ),
{
    lemma_owned_rt_root(nbt@.0, nbt@.1, rest);
}

} // verus!
