//! Conversions from Rust values into owned NBT.

use vstd::prelude::*;
use vstd::string::StringSliceAdditionalSpecFns;
use vstd::utf8::encode_utf8;

use crate::common::{read_string, spec_u16_be, spec_u32_be, spec_u64_be, spec_u16_to_be, spec_u32_to_be, spec_u64_to_be, COMPOUND_ID, END_ID, INT_ID, LIST_ID};
use crate::error::{DeserializeError, Error};
use crate::model::{parse_string, ser_compound, ser_list, ser_payload, tag_id, ListModel, TagModel};
use crate::owned::format::owned_parse_entries;
use crate::reader::Reader;
use crate::roundtrip::lemma_casts_back;
use crate::mutf8::{spec_utf8_to_mutf8, Mutf8Str, Mutf8String};
use crate::owned::{CompoundTag, ListTag, Nbt, Tag};

verus! {

/// A value that can be written as a single NBT tag.
pub trait ToNbtTag: Sized {
    /// The tag the value becomes.
    spec fn nbt_tag_of(&self) -> TagModel;

    fn to_nbt_tag(self) -> (r: Tag)
        ensures
            r@ == self.nbt_tag_of(),
    ;

    /// The tag the value becomes, when it becomes one.
    fn to_optional_nbt_tag(self) -> (r: Option<Tag>)
        ensures
            r matches Some(t) && t@ == self.nbt_tag_of(),
    {
        Some(self.to_nbt_tag())
    }
}

/// A value that can be written as an NBT compound.
pub trait Serialize: Sized {
    /// The entries of the compound the value becomes.
    spec fn compound_of(&self) -> Seq<(Seq<u8>, TagModel)>;

    fn to_compound(self) -> (r: CompoundTag)
        ensures
            r@ == self.compound_of(),
    ;

    /// The value as a root compound with an empty name.
    fn to_nbt(self) -> (r: Nbt)
        ensures
            r@ == (Seq::<u8>::empty(), self.compound_of()),
    {
        let compound = self.to_compound();
        Nbt { name: Mutf8String::from_vec(Vec::new()), tag: compound }
    }
}

impl Serialize for CompoundTag {
    open spec fn compound_of(&self) -> Seq<(Seq<u8>, TagModel)> {
        self@
    }

    fn to_compound(self) -> (r: CompoundTag)
        ensures
            r@ == self@,
    {
        self
    }
}

impl ToNbtTag for CompoundTag {
    open spec fn nbt_tag_of(&self) -> TagModel {
        TagModel::Compound(self@)
    }

    fn to_nbt_tag(self) -> (r: Tag)
        ensures
            r@ == TagModel::Compound(self@),
    {
        Tag::Compound(self)
    }
}

impl ToNbtTag for Tag {
    open spec fn nbt_tag_of(&self) -> TagModel {
        self@
    }

    fn to_nbt_tag(self) -> (r: Tag)
        ensures
            r@ == self@,
    {
        self
    }
}

impl ToNbtTag for ListTag {
    open spec fn nbt_tag_of(&self) -> TagModel {
        TagModel::List(self@)
    }

    fn to_nbt_tag(self) -> (r: Tag)
        ensures
            r@ == TagModel::List(self@),
    {
        Tag::List(self)
    }
}

impl ToNbtTag for i8 {
    open spec fn nbt_tag_of(&self) -> TagModel {
        TagModel::Byte(*self)
    }

    fn to_nbt_tag(self) -> (r: Tag)
        ensures
            r@ == TagModel::Byte(self),
    {
        Tag::Byte(self)
    }
}

impl ToNbtTag for i16 {
    open spec fn nbt_tag_of(&self) -> TagModel {
        TagModel::Short(*self)
    }

    fn to_nbt_tag(self) -> (r: Tag)
        ensures
            r@ == TagModel::Short(self),
    {
        Tag::Short(self)
    }
}

impl ToNbtTag for i32 {
    open spec fn nbt_tag_of(&self) -> TagModel {
        TagModel::Int(*self)
    }

    fn to_nbt_tag(self) -> (r: Tag)
        ensures
            r@ == TagModel::Int(self),
    {
        Tag::Int(self)
    }
}

impl ToNbtTag for i64 {
    open spec fn nbt_tag_of(&self) -> TagModel {
        TagModel::Long(*self)
    }

    fn to_nbt_tag(self) -> (r: Tag)
        ensures
            r@ == TagModel::Long(self),
    {
        Tag::Long(self)
    }
}

/// Unsigned numbers become the signed tag of the same width, bit for bit.
impl ToNbtTag for u8 {
    open spec fn nbt_tag_of(&self) -> TagModel {
        TagModel::Byte(*self as i8)
    }

    fn to_nbt_tag(self) -> (r: Tag)
        ensures
            r@ == TagModel::Byte(self as i8),
    {
        Tag::Byte(self as i8)
    }
}

impl ToNbtTag for u16 {
    open spec fn nbt_tag_of(&self) -> TagModel {
        TagModel::Short(*self as i16)
    }

    fn to_nbt_tag(self) -> (r: Tag)
        ensures
            r@ == TagModel::Short(self as i16),
    {
        Tag::Short(self as i16)
    }
}

impl ToNbtTag for u32 {
    open spec fn nbt_tag_of(&self) -> TagModel {
        TagModel::Int(*self as i32)
    }

    fn to_nbt_tag(self) -> (r: Tag)
        ensures
            r@ == TagModel::Int(self as i32),
    {
        Tag::Int(self as i32)
    }
}

impl ToNbtTag for u64 {
    open spec fn nbt_tag_of(&self) -> TagModel {
        TagModel::Long(*self as i64)
    }

    fn to_nbt_tag(self) -> (r: Tag)
        ensures
            r@ == TagModel::Long(self as i64),
    {
        Tag::Long(self as i64)
    }
}

/// A boolean becomes the byte 1 or 0.
impl ToNbtTag for bool {
    open spec fn nbt_tag_of(&self) -> TagModel {
        TagModel::Byte(if *self { 1 } else { 0 })
    }

    fn to_nbt_tag(self) -> (r: Tag)
        ensures
            r@ == TagModel::Byte(if self { 1i8 } else { 0i8 }),
    {
        Tag::Byte(if self { 1 } else { 0 })
    }
}

impl ToNbtTag for Mutf8String {
    open spec fn nbt_tag_of(&self) -> TagModel {
        TagModel::String(self@)
    }

    fn to_nbt_tag(self) -> (r: Tag)
        ensures
            r@ == TagModel::String(self@),
    {
        Tag::String(self)
    }
}

impl<'a> ToNbtTag for Mutf8Str<'a> {
    open spec fn nbt_tag_of(&self) -> TagModel {
        TagModel::String(self@)
    }

    fn to_nbt_tag(self) -> (r: Tag)
        ensures
            r@ == TagModel::String(self@),
    {
        Tag::String(self.to_owned())
    }
}

/// A string becomes its MUTF-8 encoding.
impl ToNbtTag for String {
    open spec fn nbt_tag_of(&self) -> TagModel {
        TagModel::String(spec_utf8_to_mutf8(encode_utf8(self@)))
    }

    fn to_nbt_tag(self) -> (r: Tag) {
        Tag::String(Mutf8String::from_string(self.as_str()))
    }
}

impl<'a> ToNbtTag for &'a str {
    open spec fn nbt_tag_of(&self) -> TagModel {
        TagModel::String(spec_utf8_to_mutf8((*self).spec_bytes()))
    }

    fn to_nbt_tag(self) -> (r: Tag) {
        Tag::String(Mutf8String::from_string(self))
    }
}

/// The MUTF-8 encodings of the strings, in order.
pub open spec fn encodings_of(v: Seq<String>) -> Seq<Seq<u8>> {
    v.map_values(|s: String| spec_utf8_to_mutf8(encode_utf8(s@)))
}

/// A list of strings becomes a list tag of their encodings.
impl ToNbtTag for Vec<String> {
    open spec fn nbt_tag_of(&self) -> TagModel {
        TagModel::List(ListModel::String(encodings_of(self@)))
    }

    fn to_nbt_tag(self) -> (r: Tag) {
        let mut strings: Vec<Mutf8String> = Vec::with_capacity(self.len());
        let mut i: usize = 0;
        while i < self.len()
            invariant
                i <= self@.len(),
                strings@.len() == i,
                forall|j: int| 0 <= j < i ==> #[trigger] strings@[j]@ == encodings_of(self@)[j],
            decreases self@.len() - i,
        {
            strings.push(Mutf8String::from_string(self[i].as_str()));
            i = i + 1;
        }
        assert(strings@.map_values(|a: Mutf8String| a@) =~= encodings_of(self@));
        Tag::List(ListTag::String(strings))
    }
}

/// A value that can be read from NBT data.
pub trait Deserialize<'a>: Sized {
    /// The tag type the value is read from; the end id accepts any type.
    const NBT_TYPE_ID: u8;

    /// Reading the value's payload from `old` gives `r` and leaves the reader
    /// at `new`.
    spec fn reads_as(old: Reader<'a>, r: Result<Self, DeserializeError>, new: Reader<'a>) -> bool;

    /// Reads the value's payload.
    fn read_value_direct(data: &mut Reader<'a>) -> (r: Result<Self, DeserializeError>)
        requires
            old(data).wf(),
        ensures
            final(data).wf(),
            final(data).data@ == old(data).data@,
            Self::reads_as(*old(data), r, *final(data)),
    ;

    /// Reads the value's payload, knowing its tag type; it is read as by
    /// `read_value_direct`.
    fn read_value_direct_with_explicit_type(data: &mut Reader<'a>, type_id: u8) -> (r: Result<
        Self,
        DeserializeError,
    >)
        requires
            old(data).wf(),
        ensures
            final(data).wf(),
            final(data).data@ == old(data).data@,
            Self::reads_as(*old(data), r, *final(data)),
    {
        Self::read_value_direct(data)
    }

    /// Whether a tag of type `type_id` can be read as this value.
    fn type_matches(type_id: u8) -> (r: bool)
        ensures
            r == (Self::NBT_TYPE_ID == END_ID || type_id == Self::NBT_TYPE_ID),
    {
        Self::NBT_TYPE_ID == END_ID || type_id == Self::NBT_TYPE_ID
    }

    /// Reads a root: the compound tag id, the root's name, then the value.
    fn read(data: &mut Reader<'a>) -> (r: Result<(crate::mutf8::Mutf8Str<'a>, Self), DeserializeError>)
        requires
            old(data).wf(),
        ensures
            final(data).wf(),
            final(data).data@ == old(data).data@,
            old(data).rest().len() == 0 ==> r == Err::<(crate::mutf8::Mutf8Str<'a>, Self), DeserializeError>(
                DeserializeError::Nbt(Error::UnexpectedEof),
            ),
            old(data).rest().len() > 0 && old(data).rest()[0] != COMPOUND_ID ==> r == Err::<
                (crate::mutf8::Mutf8Str<'a>, Self),
                DeserializeError,
            >(DeserializeError::Nbt(Error::InvalidRootType(old(data).rest()[0]))),
            r matches Ok((name, _)) ==> parse_string(old(data).rest().subrange(
                1,
                old(data).rest().len() as int,
            )) matches Ok((n, _)) && name@ == n,
    {
        let root_type = match data.read_u8() {
            Ok(t) => t,
            Err(e) => return Err(DeserializeError::Nbt(e)),
        };
        if root_type != COMPOUND_ID {
            return Err(DeserializeError::Nbt(Error::InvalidRootType(root_type)));
        }
        let ghost after_type = *data;
        proof {
            crate::reader::lemma_rest_advance(*old(data), after_type, 1);
        }
        let name = match read_string(data) {
            Ok(n) => n,
            Err(e) => return Err(DeserializeError::Nbt(e)),
        };
        let value = Self::read_value_direct_with_explicit_type(data, root_type)?;
        Ok((name, value))
    }
}

impl<'a> Deserialize<'a> for i8 {
    const NBT_TYPE_ID: u8 = 1;

    open spec fn reads_as(old: Reader<'a>, r: Result<i8, DeserializeError>, new: Reader<'a>) -> bool {
        &&& r is Ok <==> 1 <= old.rest().len()
        &&& r matches Ok(v) ==> v == old.rest()[0] as i8 && new.advanced(old, 1)
        &&& r is Err ==> r == Err::<i8, DeserializeError>(DeserializeError::Nbt(Error::UnexpectedEof))
    }

    fn read_value_direct(data: &mut Reader<'a>) -> (r: Result<i8, DeserializeError>) {
        match data.read_i8() {
            Ok(v) => Ok(v),
            Err(e) => Err(DeserializeError::Nbt(e)),
        }
    }
}

impl<'a> Deserialize<'a> for u8 {
    const NBT_TYPE_ID: u8 = 1;

    open spec fn reads_as(old: Reader<'a>, r: Result<u8, DeserializeError>, new: Reader<'a>) -> bool {
        &&& r is Ok <==> 1 <= old.rest().len()
        &&& r matches Ok(v) ==> v == old.rest()[0] && new.advanced(old, 1)
        &&& r is Err ==> r == Err::<u8, DeserializeError>(DeserializeError::Nbt(Error::UnexpectedEof))
    }

    fn read_value_direct(data: &mut Reader<'a>) -> (r: Result<u8, DeserializeError>) {
        match data.read_u8() {
            Ok(v) => Ok(v),
            Err(e) => Err(DeserializeError::Nbt(e)),
        }
    }
}

impl<'a> Deserialize<'a> for i16 {
    const NBT_TYPE_ID: u8 = 2;

    open spec fn reads_as(old: Reader<'a>, r: Result<i16, DeserializeError>, new: Reader<'a>) -> bool {
        &&& r is Ok <==> 2 <= old.rest().len()
        &&& r matches Ok(v) ==> v == spec_u16_be(old.rest()) as i16 && new.advanced(old, 2)
        &&& r is Err ==> r == Err::<i16, DeserializeError>(DeserializeError::Nbt(Error::UnexpectedEof))
    }

    fn read_value_direct(data: &mut Reader<'a>) -> (r: Result<i16, DeserializeError>) {
        match data.read_i16() {
            Ok(v) => Ok(v),
            Err(e) => Err(DeserializeError::Nbt(e)),
        }
    }
}

impl<'a> Deserialize<'a> for u16 {
    const NBT_TYPE_ID: u8 = 2;

    open spec fn reads_as(old: Reader<'a>, r: Result<u16, DeserializeError>, new: Reader<'a>) -> bool {
        &&& r is Ok <==> 2 <= old.rest().len()
        &&& r matches Ok(v) ==> v == spec_u16_be(old.rest()) && new.advanced(old, 2)
        &&& r is Err ==> r == Err::<u16, DeserializeError>(DeserializeError::Nbt(Error::UnexpectedEof))
    }

    fn read_value_direct(data: &mut Reader<'a>) -> (r: Result<u16, DeserializeError>) {
        match data.read_u16() {
            Ok(v) => Ok(v),
            Err(e) => Err(DeserializeError::Nbt(e)),
        }
    }
}

impl<'a> Deserialize<'a> for i32 {
    const NBT_TYPE_ID: u8 = 3;

    open spec fn reads_as(old: Reader<'a>, r: Result<i32, DeserializeError>, new: Reader<'a>) -> bool {
        &&& r is Ok <==> 4 <= old.rest().len()
        &&& r matches Ok(v) ==> v == spec_u32_be(old.rest()) as i32 && new.advanced(old, 4)
        &&& r is Err ==> r == Err::<i32, DeserializeError>(DeserializeError::Nbt(Error::UnexpectedEof))
    }

    fn read_value_direct(data: &mut Reader<'a>) -> (r: Result<i32, DeserializeError>) {
        match data.read_i32() {
            Ok(v) => Ok(v),
            Err(e) => Err(DeserializeError::Nbt(e)),
        }
    }
}

impl<'a> Deserialize<'a> for u32 {
    const NBT_TYPE_ID: u8 = 3;

    open spec fn reads_as(old: Reader<'a>, r: Result<u32, DeserializeError>, new: Reader<'a>) -> bool {
        &&& r is Ok <==> 4 <= old.rest().len()
        &&& r matches Ok(v) ==> v == spec_u32_be(old.rest()) && new.advanced(old, 4)
        &&& r is Err ==> r == Err::<u32, DeserializeError>(DeserializeError::Nbt(Error::UnexpectedEof))
    }

    fn read_value_direct(data: &mut Reader<'a>) -> (r: Result<u32, DeserializeError>) {
        match data.read_u32() {
            Ok(v) => Ok(v),
            Err(e) => Err(DeserializeError::Nbt(e)),
        }
    }
}

impl<'a> Deserialize<'a> for i64 {
    const NBT_TYPE_ID: u8 = 4;

    open spec fn reads_as(old: Reader<'a>, r: Result<i64, DeserializeError>, new: Reader<'a>) -> bool {
        &&& r is Ok <==> 8 <= old.rest().len()
        &&& r matches Ok(v) ==> v == spec_u64_be(old.rest()) as i64 && new.advanced(old, 8)
        &&& r is Err ==> r == Err::<i64, DeserializeError>(DeserializeError::Nbt(Error::UnexpectedEof))
    }

    fn read_value_direct(data: &mut Reader<'a>) -> (r: Result<i64, DeserializeError>) {
        match data.read_i64() {
            Ok(v) => Ok(v),
            Err(e) => Err(DeserializeError::Nbt(e)),
        }
    }
}

impl<'a> Deserialize<'a> for u64 {
    const NBT_TYPE_ID: u8 = 4;

    open spec fn reads_as(old: Reader<'a>, r: Result<u64, DeserializeError>, new: Reader<'a>) -> bool {
        &&& r is Ok <==> 8 <= old.rest().len()
        &&& r matches Ok(v) ==> v == spec_u64_be(old.rest()) && new.advanced(old, 8)
        &&& r is Err ==> r == Err::<u64, DeserializeError>(DeserializeError::Nbt(Error::UnexpectedEof))
    }

    fn read_value_direct(data: &mut Reader<'a>) -> (r: Result<u64, DeserializeError>) {
        match data.read_u64() {
            Ok(v) => Ok(v),
            Err(e) => Err(DeserializeError::Nbt(e)),
        }
    }
}

impl<'a> Deserialize<'a> for crate::mutf8::Mutf8Str<'a> {
    const NBT_TYPE_ID: u8 = 8;

    open spec fn reads_as(old: Reader<'a>, r: Result<crate::mutf8::Mutf8Str<'a>, DeserializeError>, new: Reader<'a>) -> bool {
        &&& match parse_string(old.rest()) {
            Ok((a, k)) => r matches Ok(m) && m@ == a && new.advanced(old, k),
            Err(e) => r == Err::<crate::mutf8::Mutf8Str<'a>, DeserializeError>(DeserializeError::Nbt(e))
        }
    }

    fn read_value_direct(data: &mut Reader<'a>) -> (r: Result<crate::mutf8::Mutf8Str<'a>, DeserializeError>) {
        match read_string(data) {
            Ok(v) => Ok(v),
            Err(e) => Err(DeserializeError::Nbt(e)),
        }
    }
}

impl<'a> Deserialize<'a> for CompoundTag {
    const NBT_TYPE_ID: u8 = 10;

    open spec fn reads_as(old: Reader<'a>, r: Result<CompoundTag, DeserializeError>, new: Reader<'a>) -> bool {
        &&& match owned_parse_entries(old.rest(), 0) {
            Ok((es, k)) => r matches Ok(c) && c@ == es && new.advanced(old, k),
            Err(e) => r == Err::<CompoundTag, DeserializeError>(DeserializeError::Nbt(e))
        }
    }

    /// Reads the named tags of a root compound.
    fn read_value_direct(data: &mut Reader<'a>) -> (r: Result<CompoundTag, DeserializeError>) {
        match CompoundTag::new(data, 0) {
            Ok(v) => Ok(v),
            Err(e) => Err(DeserializeError::Nbt(e)),
        }
    }
}

/// A compound that is empty also reads as `None`.
impl<'a, T: Deserialize<'a>> Deserialize<'a> for Option<T> {
    const NBT_TYPE_ID: u8 = T::NBT_TYPE_ID;

    open spec fn reads_as(old: Reader<'a>, r: Result<Option<T>, DeserializeError>, new: Reader<'a>) -> bool {
        if T::NBT_TYPE_ID == COMPOUND_ID && old.rest().len() == 0 {
            r == Err::<Option<T>, DeserializeError>(DeserializeError::Nbt(Error::UnexpectedEof))
                && new == old
        } else if T::NBT_TYPE_ID == COMPOUND_ID && old.rest()[0] == END_ID {
            r == Ok::<Option<T>, DeserializeError>(None) && new.advanced(old, 1)
        } else {
            match r {
                Ok(Some(v)) => T::reads_as(old, Ok(v), new),
                Ok(None) => false,
                Err(e) => T::reads_as(old, Err(e), new),
            }
        }
    }

    fn read_value_direct(data: &mut Reader<'a>) -> (r: Result<Option<T>, DeserializeError>)     {
        if T::NBT_TYPE_ID == COMPOUND_ID {
            let next_tag_type = match data.peek_u8() {
                Ok(t) => t,
                Err(e) => return Err(DeserializeError::Nbt(e)),
            };
            if next_tag_type == END_ID {
                match data.skip(1) {
                    Ok(()) => {},
                    Err(e) => return Err(DeserializeError::Nbt(e)),
                }
                return Ok(None);
            }
        }
        match T::read_value_direct(data) {
            Ok(v) => Ok(Some(v)),
            Err(e) => Err(e),
        }
    }
}

/// The element count of a list header: the signed count after its type byte.
pub open spec fn list_count(s: Seq<u8>) -> i32 {
    spec_u32_be(s.subrange(1, s.len() as int)) as i32
}

/// The readers `rs` step through the values `v` in order: reading a value
/// from `rs[i]` gives `v[i]` and leaves the reader at `rs[i + 1]`.
pub open spec fn reads_elements<'a, T: Deserialize<'a>>(rs: Seq<Reader<'a>>, v: Seq<T>) -> bool {
    &&& rs.len() == v.len() + 1
    &&& forall|i: int| 0 <= i < v.len() ==> T::reads_as(rs[i], Ok(#[trigger] v[i]), rs[i + 1])
}

/// A list of values: an element type, a signed count, then the elements.
impl<'a, T: Deserialize<'a>> Deserialize<'a> for Vec<T> {
    const NBT_TYPE_ID: u8 = 9;

    open spec fn reads_as(old: Reader<'a>, r: Result<Vec<T>, DeserializeError>, new: Reader<'a>) -> bool {
        &&& old.rest().len() < 5 ==> r == Err::<Vec<T>, DeserializeError>(
            DeserializeError::Nbt(Error::UnexpectedEof),
        )
        &&& old.rest().len() >= 5 ==> {
            let t = old.rest()[0];
            let n = list_count(old.rest());
            &&& (t == END_ID || n <= 0) ==> (r matches Ok(v) && v@.len() == 0
                && new.advanced(old, 5))
            &&& (t != END_ID && n > 0 && !(T::NBT_TYPE_ID == END_ID || t == T::NBT_TYPE_ID))
                ==> r == Err::<Vec<T>, DeserializeError>(DeserializeError::MismatchedListType(t))
            &&& r matches Ok(v) ==> (n > 0 && t != END_ID ==> v@.len() == n && exists|rs: Seq<Reader<'a>>|
                rs.len() > 0 && rs[0].advanced(old, 5) && rs.last() == new && #[trigger] reads_elements::<'a, T>(rs, v@))
        }
    }

    fn read_value_direct(data: &mut Reader<'a>) -> (r: Result<Vec<T>, DeserializeError>)     {
        let ghost start = *data;
        let tag_type = match data.read_u8() {
            Ok(t) => t,
            Err(e) => return Err(DeserializeError::Nbt(e)),
        };
        let ghost after_type = *data;
        let list_length = match data.read_i32() {
            Ok(n) => n,
            Err(e) => {
                proof {
                    crate::reader::lemma_rest_advance(start, after_type, 1);
                }
                return Err(DeserializeError::Nbt(e));
            },
        };
        proof {
            crate::reader::lemma_rest_advance(start, after_type, 1);
            assert(after_type.rest().subrange(0, 4) =~= start.rest().subrange(1, start.rest().len() as int).subrange(0, 4));
        }
        if tag_type == END_ID || list_length <= 0 {
            return Ok(Vec::new());
        }
        if !T::type_matches(tag_type) {
            return Err(DeserializeError::MismatchedListType(tag_type));
        }
        let capacity: i32 = if list_length < 128 { list_length } else { 128 };
        let mut vec: Vec<T> = Vec::with_capacity(capacity as usize);
        let mut i: i32 = 0;
        let ghost mut rs: Seq<Reader<'a>> = seq![*data];
        while i < list_length
            invariant
                0 <= i <= list_length,
                vec@.len() == i,
                rs.len() > 0,
                rs[0].advanced(start, 5),
                rs.last() == *data,
                reads_elements::<'a, T>(rs, vec@),
                data.wf(),
                data.data@ == start.data@,
                start == *old(data),
                start.rest().len() >= 5,
                tag_type == start.rest()[0],
                list_length == list_count(start.rest()),
                tag_type != END_ID,
                T::NBT_TYPE_ID == END_ID || tag_type == T::NBT_TYPE_ID,
            decreases list_length - i,
        {
            let ghost before = *data;
            match T::read_value_direct_with_explicit_type(data, tag_type) {
                Ok(v) => {
                    let ghost done = vec@;
                    vec.push(v);
                    proof {
                        rs = rs.push(*data);
                        assert forall|j: int| 0 <= j < vec@.len() implies T::reads_as(
                            rs[j],
                            Ok(#[trigger] vec@[j]),
                            rs[j + 1],
                        ) by {
                            if j < done.len() {
                                assert(vec@[j] == done[j]);
                            }
                        }
                    }
                },
                Err(e) => return Err(e),
            }
            i = i + 1;
        }
        assert(reads_elements::<'a, T>(rs, vec@));
        Ok(vec)
    }
}

// ---------------------------------------------------------------------------
// Laws

/// A compound becomes a compound tag holding exactly its entries, so the
/// tag is written as the compound's own bytes; as a compound it is itself.
pub proof fn lemma_compound_to_tag(c: CompoundTag)
    ensures
        c.nbt_tag_of() == TagModel::Compound(c@),
        tag_id(c.nbt_tag_of()) == COMPOUND_ID,
        ser_payload(c.nbt_tag_of()) == ser_compound(c@),
        c.compound_of() == c@,
{
}

/// A list becomes a list tag holding exactly that list, so the tag is
/// written as the list's own bytes.
pub proof fn lemma_list_to_tag(l: ListTag)
    ensures
        l.nbt_tag_of() == TagModel::List(l@),
        tag_id(l.nbt_tag_of()) == LIST_ID,
        ser_payload(l.nbt_tag_of()) == ser_list(l@),
{
}

/// An unsigned number becomes the signed tag of the same width bit for bit:
/// the tag is written as the number's own big-endian bytes. A boolean is
/// written as the byte 1 or 0.
pub proof fn lemma_unsigned_to_tag(a: u8, b: u16, c: u32, e: u64, f: bool)
    ensures
        ser_payload(a.nbt_tag_of()) == seq![a],
        ser_payload(b.nbt_tag_of()) == spec_u16_to_be(b),
        ser_payload(c.nbt_tag_of()) == spec_u32_to_be(c),
        ser_payload(e.nbt_tag_of()) == spec_u64_to_be(e),
        ser_payload(f.nbt_tag_of()) == seq![if f { 1u8 } else { 0u8 }],
{
    lemma_casts_back(a, b, c, e);
}

/// Readers that step through `v` as `i32`s each move four bytes on, and read
/// each value from the four bytes where they stand.
proof fn lemma_int_steps<'a>(rs: Seq<Reader<'a>>, v: Seq<i32>, start: Reader<'a>, i: int)
    requires
        reads_elements::<'a, i32>(rs, v),
        rs[0].advanced(start, 0),
        start.wf(),
        0 <= i <= v.len(),
    ensures
        rs[i].advanced(start, 4 * i),
        rs[i].wf(),
        i < v.len() ==> rs[i].rest().len() >= 4 && v[i] == spec_u32_be(rs[i].rest()) as i32,
    decreases i,
{
    if i > 0 {
        lemma_int_steps(rs, v, start, i - 1);
        assert(<i32 as Deserialize<'a>>::reads_as(rs[i - 1], Ok(v[i - 1]), rs[i]));
    }
    if i < v.len() {
        assert(<i32 as Deserialize<'a>>::reads_as(rs[i], Ok(v[i]), rs[i + 1]));
    }
}

/// Reading a list of ints as `Vec<i32>` gives the list's elements in order:
/// element `i` is the big-endian int at offset `5 + 4 * i`, after the
/// element type and the count, and reading stops right after the last one.
pub proof fn lemma_int_list_read<'a>(old: Reader<'a>, v: Vec<i32>, new: Reader<'a>)
    requires
        old.wf(),
        Vec::<i32>::reads_as(old, Ok(v), new),
        old.rest().len() >= 5,
        old.rest()[0] == INT_ID,
        list_count(old.rest()) > 0,
    ensures
        v@.len() == list_count(old.rest()),
        old.rest().len() >= 5 + 4 * v@.len(),
        forall|i: int| 0 <= i < v@.len() ==> #[trigger] v@[i] == spec_u32_be(
            old.rest().subrange(5 + 4 * i, old.rest().len() as int),
        ) as i32,
        new.advanced(old, 5 + 4 * (v@.len() as int)),
{
    let rs = choose|rs: Seq<Reader<'a>>|
        rs.len() > 0 && rs[0].advanced(old, 5) && rs.last() == new && #[trigger] reads_elements::<'a, i32>(rs, v@);
    let start = rs[0];
    assert(start.wf());
    assert forall|i: int| 0 <= i < v@.len() implies #[trigger] v@[i] == spec_u32_be(
        old.rest().subrange(5 + 4 * i, old.rest().len() as int),
    ) as i32 by {
        lemma_int_steps(rs, v@, start, i);
        assert(rs[i].rest() =~= old.rest().subrange(5 + 4 * i, old.rest().len() as int));
    }
    lemma_int_steps(rs, v@, start, v@.len() as int);
}

} // verus!
