//! The tape: a flat array of 64-bit elements describing parsed NBT.
//!
//! Each element holds a kind in its top 8 bits. The low 56 bits hold either
//! a small value (a byte, short or int), a position in the data (where a
//! long, a string, an array or a list of numbers starts), or, for compounds
//! and lists of lists or compounds, an approximate length in bits 32..56 and
//! in the low 32 bits the number of tape elements the container spans.

use vstd::prelude::*;

verus! {

/// What a tape element describes.
#[derive(Clone, Copy, Debug, PartialEq, Eq, Structural)]
pub enum TapeTagKind {
    EmptyList,
    Byte,
    Short,
    Int,
    Long,
    Float,
    Double,
    ByteArray,
    String,
    Compound,
    IntArray,
    LongArray,
    ByteList,
    ShortList,
    IntList,
    LongList,
    FloatList,
    DoubleList,
    ByteArrayList,
    StringList,
    ListList,
    CompoundList,
    IntArrayList,
    LongArrayList,
}

/// The number stored in a tape element for a kind. The kinds of single tags
/// have their tag id; the kinds of lists follow them.
pub open spec fn kind_id(k: TapeTagKind) -> u8 {
    match k {
        TapeTagKind::EmptyList => 0,
        TapeTagKind::Byte => 1,
        TapeTagKind::Short => 2,
        TapeTagKind::Int => 3,
        TapeTagKind::Long => 4,
        TapeTagKind::Float => 5,
        TapeTagKind::Double => 6,
        TapeTagKind::ByteArray => 7,
        TapeTagKind::String => 8,
        TapeTagKind::Compound => 10,
        TapeTagKind::IntArray => 11,
        TapeTagKind::LongArray => 12,
        TapeTagKind::ByteList => 13,
        TapeTagKind::ShortList => 14,
        TapeTagKind::IntList => 15,
        TapeTagKind::LongList => 16,
        TapeTagKind::FloatList => 17,
        TapeTagKind::DoubleList => 18,
        TapeTagKind::ByteArrayList => 19,
        TapeTagKind::StringList => 20,
        TapeTagKind::ListList => 21,
        TapeTagKind::CompoundList => 22,
        TapeTagKind::IntArrayList => 23,
        TapeTagKind::LongArrayList => 24,
    }
}

/// Whether a kind describes a list.
pub open spec fn spec_is_list(k: TapeTagKind) -> bool {
    match k {
        TapeTagKind::EmptyList | TapeTagKind::ByteList | TapeTagKind::ShortList
        | TapeTagKind::IntList | TapeTagKind::LongList | TapeTagKind::FloatList
        | TapeTagKind::DoubleList | TapeTagKind::ByteArrayList | TapeTagKind::StringList
        | TapeTagKind::ListList | TapeTagKind::CompoundList | TapeTagKind::IntArrayList
        | TapeTagKind::LongArrayList => true,
        _ => false,
    }
}

/// Whether a kind spans more than its own element on the tape.
pub open spec fn is_container(k: TapeTagKind) -> bool {
    k == TapeTagKind::Compound || k == TapeTagKind::ListList || k == TapeTagKind::CompoundList
}

impl TapeTagKind {
    pub fn is_list(&self) -> (r: bool)
        ensures
            r == spec_is_list(*self),
    {
        match self {
            TapeTagKind::EmptyList | TapeTagKind::ByteList | TapeTagKind::ShortList
            | TapeTagKind::IntList | TapeTagKind::LongList | TapeTagKind::FloatList
            | TapeTagKind::DoubleList | TapeTagKind::ByteArrayList | TapeTagKind::StringList
            | TapeTagKind::ListList | TapeTagKind::CompoundList | TapeTagKind::IntArrayList
            | TapeTagKind::LongArrayList => true,
            _ => false,
        }
    }

    /// The number stored for this kind.
    pub fn id(&self) -> (r: u8)
        ensures
            r == kind_id(*self),
    {
        match self {
            TapeTagKind::EmptyList => 0,
            TapeTagKind::Byte => 1,
            TapeTagKind::Short => 2,
            TapeTagKind::Int => 3,
            TapeTagKind::Long => 4,
            TapeTagKind::Float => 5,
            TapeTagKind::Double => 6,
            TapeTagKind::ByteArray => 7,
            TapeTagKind::String => 8,
            TapeTagKind::Compound => 10,
            TapeTagKind::IntArray => 11,
            TapeTagKind::LongArray => 12,
            TapeTagKind::ByteList => 13,
            TapeTagKind::ShortList => 14,
            TapeTagKind::IntList => 15,
            TapeTagKind::LongList => 16,
            TapeTagKind::FloatList => 17,
            TapeTagKind::DoubleList => 18,
            TapeTagKind::ByteArrayList => 19,
            TapeTagKind::StringList => 20,
            TapeTagKind::ListList => 21,
            TapeTagKind::CompoundList => 22,
            TapeTagKind::IntArrayList => 23,
            TapeTagKind::LongArrayList => 24,
        }
    }

    /// The kind stored as `id`, if any.
    pub fn from_id(id: u8) -> (r: Option<TapeTagKind>)
        ensures
            r matches Some(k) ==> kind_id(k) == id,
            r is None <==> (id == 9 || id > 24),
    {
        match id {
            0 => Some(TapeTagKind::EmptyList),
            1 => Some(TapeTagKind::Byte),
            2 => Some(TapeTagKind::Short),
            3 => Some(TapeTagKind::Int),
            4 => Some(TapeTagKind::Long),
            5 => Some(TapeTagKind::Float),
            6 => Some(TapeTagKind::Double),
            7 => Some(TapeTagKind::ByteArray),
            8 => Some(TapeTagKind::String),
            10 => Some(TapeTagKind::Compound),
            11 => Some(TapeTagKind::IntArray),
            12 => Some(TapeTagKind::LongArray),
            13 => Some(TapeTagKind::ByteList),
            14 => Some(TapeTagKind::ShortList),
            15 => Some(TapeTagKind::IntList),
            16 => Some(TapeTagKind::LongList),
            17 => Some(TapeTagKind::FloatList),
            18 => Some(TapeTagKind::DoubleList),
            19 => Some(TapeTagKind::ByteArrayList),
            20 => Some(TapeTagKind::StringList),
            21 => Some(TapeTagKind::ListList),
            22 => Some(TapeTagKind::CompoundList),
            23 => Some(TapeTagKind::IntArrayList),
            24 => Some(TapeTagKind::LongArrayList),
            _ => None,
        }
    }
}

/// The largest value of the 56-bit payload of an element.
pub const PAYLOAD_MASK: u64 = 0xff_ffff_ffff_ffff;

/// The largest approximate length an element can hold.
pub const APPROX_LEN_MAX: u32 = 0xff_ffff;

/// The kind number in the top 8 bits of an element.
pub open spec fn elem_kind_id(x: u64) -> u8 {
    (x >> 56u64) as u8
}

/// The low 56 bits of an element.
pub open spec fn elem_payload(x: u64) -> u64 {
    x & 0xff_ffff_ffff_ffffu64
}

/// The low 32 bits of an element: a container's span.
pub open spec fn elem_offset(x: u64) -> u32 {
    x as u32
}

/// Bits 32..56 of an element: a container's approximate length.
pub open spec fn elem_approx_len(x: u64) -> u32 {
    ((x >> 32u64) as u32) & 0xff_ffffu32
}

/// An element with kind number `k` and payload `p`.
pub open spec fn make_elem(k: u8, p: u64) -> u64 {
    ((k as u64) << 56u64) | p
}

/// An element with kind number `k`, approximate length `len` and span `off`.
pub open spec fn make_container(k: u8, len: u32, off: u32) -> u64 {
    ((k as u64) << 56u64) | ((len as u64) << 32u64) | (off as u64)
}

/// The fields of an element made from a kind and a payload read back.
pub proof fn lemma_make_elem(k: u8, p: u64)
    requires
        p <= 0xff_ffff_ffff_ffffu64,
    ensures
        elem_kind_id(make_elem(k, p)) == k,
        elem_payload(make_elem(k, p)) == p,
        make_elem(k, p) as u8 == p as u8,
        make_elem(k, p) as u16 == p as u16,
        make_elem(k, p) as u32 == p as u32,
{
    assert((((k as u64) << 56u64) | p) >> 56u64 == k as u64) by (bit_vector)
        requires
            p <= 0xff_ffff_ffff_ffffu64,
    ;
    assert((((k as u64) << 56u64) | p) & 0xff_ffff_ffff_ffffu64 == p) by (bit_vector)
        requires
            p <= 0xff_ffff_ffff_ffffu64,
    ;
    assert(((((k as u64) << 56u64) | p) as u8 == p as u8) && ((((k as u64) << 56u64) | p) as u16
        == p as u16) && ((((k as u64) << 56u64) | p) as u32 == p as u32)) by (bit_vector);
}

/// The fields of a container element read back.
pub proof fn lemma_make_container(k: u8, len: u32, off: u32)
    requires
        len <= 0xff_ffffu32,
    ensures
        elem_kind_id(make_container(k, len, off)) == k,
        elem_approx_len(make_container(k, len, off)) == len,
        elem_offset(make_container(k, len, off)) == off,
{
    assert((((k as u64) << 56u64) | ((len as u64) << 32u64) | (off as u64)) >> 56u64 == k as u64)
        by (bit_vector)
        requires
            len <= 0xff_ffffu32,
    ;
    assert(((((((k as u64) << 56u64) | ((len as u64) << 32u64) | (off as u64)) >> 32u64) as u32)
        & 0xff_ffffu32) == len) by (bit_vector)
        requires
            len <= 0xff_ffffu32,
    ;
    assert((((k as u64) << 56u64) | ((len as u64) << 32u64) | (off as u64)) as u32 == off)
        by (bit_vector);
}

/// One element of the tape.
#[derive(Clone, Copy, Debug)]
pub struct TapeElement(pub u64);

impl View for TapeElement {
    type V = u64;

    open spec fn view(&self) -> u64 {
        self.0
    }
}

/// Whether an element's kind number names a kind.
pub open spec fn valid_kind_id(x: u64) -> bool {
    elem_kind_id(x) != 9 && elem_kind_id(x) <= 24
}

/// The kind of an element whose kind number is valid.
pub open spec fn elem_kind(x: u64) -> TapeTagKind
    recommends
        valid_kind_id(x),
{
    choose|k: TapeTagKind| kind_id(k) == elem_kind_id(x)
}

/// Kinds are told apart by their numbers.
pub proof fn lemma_kind_id_injective(a: TapeTagKind, b: TapeTagKind)
    ensures
        kind_id(a) == kind_id(b) ==> a == b,
{
}

impl TapeElement {
    /// The kind of the element.
    pub fn kind(self) -> (r: TapeTagKind)
        requires
            valid_kind_id(self@),
        ensures
            kind_id(r) == elem_kind_id(self@),
            r == elem_kind(self@),
    {
        let id = (self.0 >> 56) as u8;
        match TapeTagKind::from_id(id) {
            Some(k) => {
                proof {
                    let c = choose|c: TapeTagKind| kind_id(c) == elem_kind_id(self@);
                    lemma_kind_id_injective(k, c);
                }
                k
            },
            None => {
                assert(false);
                TapeTagKind::EmptyList
            },
        }
    }

    pub fn u8(self) -> (r: u8)
        ensures
            r == self@ as u8,
    {
        self.0 as u8
    }

    pub fn u16(self) -> (r: u16)
        ensures
            r == self@ as u16,
    {
        self.0 as u16
    }

    pub fn u32(self) -> (r: u32)
        ensures
            r == self@ as u32,
    {
        self.0 as u32
    }

    pub fn u64(self) -> (r: u64)
        ensures
            r == self@,
    {
        self.0
    }

    /// The approximate length and the span of a container element.
    pub fn approx_len_and_offset(self) -> (r: (u32, u32))
        ensures
            r.0 == elem_approx_len(self@),
            r.1 == elem_offset(self@),
    {
        (((self.0 >> 32) as u32) & 0xff_ffff, self.0 as u32)
    }

    /// The position in the data that the element holds.
    pub fn ptr(self) -> (r: u64)
        ensures
            r == elem_payload(self@),
            r <= PAYLOAD_MASK,
    {
        let x = self.0;
        assert(x & 0xff_ffff_ffff_ffffu64 <= 0xff_ffff_ffff_ffffu64) by (bit_vector);
        x & PAYLOAD_MASK
    }

    /// A container element; lengths above 2^24 - 1 are saturated.
    pub fn new_with_approx_len_and_offset(kind: TapeTagKind, approx_len: u32, offset: u32) -> (r:
        Self)
        ensures
            r@ == make_container(
                kind_id(kind),
                if approx_len < APPROX_LEN_MAX { approx_len } else { APPROX_LEN_MAX },
                offset,
            ),
    {
        let approx_len = if approx_len < APPROX_LEN_MAX {
            approx_len
        } else {
            APPROX_LEN_MAX
        };
        TapeElement(((kind.id() as u64) << 56) | ((approx_len as u64) << 32) | (offset as u64))
    }

    /// Replaces the span of a container element, keeping its kind and length.
    pub fn set_offset(&mut self, offset: u32)
        requires
            valid_kind_id(old(self)@),
        ensures
            final(self)@ == make_container(
                elem_kind_id(old(self)@),
                elem_approx_len(old(self)@),
                offset,
            ),
    {
        let (len, _) = self.approx_len_and_offset();
        let x = self.0;
        assert((((x >> 32u64) as u32) & 0xff_ffffu32) <= 0xff_ffffu32) by (bit_vector);
        *self = Self::new_with_approx_len_and_offset(self.kind(), len, offset);
    }

    pub fn new_with_u8(kind: TapeTagKind, u8: u8) -> (r: Self)
        ensures
            r@ == make_elem(kind_id(kind), u8 as u64),
    {
        TapeElement(((kind.id() as u64) << 56) | u8 as u64)
    }

    pub fn new_with_u16(kind: TapeTagKind, u16: u16) -> (r: Self)
        ensures
            r@ == make_elem(kind_id(kind), u16 as u64),
    {
        TapeElement(((kind.id() as u64) << 56) | u16 as u64)
    }

    pub fn new_with_u32(kind: TapeTagKind, u32: u32) -> (r: Self)
        ensures
            r@ == make_elem(kind_id(kind), u32 as u64),
    {
        TapeElement(((kind.id() as u64) << 56) | u32 as u64)
    }

    /// An element holding a position in the data.
    pub fn new_with_ptr(kind: TapeTagKind, ptr: u64) -> (r: Self)
        requires
            ptr <= PAYLOAD_MASK,
        ensures
            r@ == make_elem(kind_id(kind), ptr),
    {
        TapeElement(((kind.id() as u64) << 56) | ptr)
    }

    /// An element with the given kind and everything else set to 0.
    pub fn new_with_0(kind: TapeTagKind) -> (r: Self)
        ensures
            r@ == make_elem(kind_id(kind), 0),
    {
        let r = TapeElement((kind.id() as u64) << 56);
        assert(((kind_id(kind) as u64) << 56u64) | 0u64 == (kind_id(kind) as u64) << 56u64)
            by (bit_vector);
        r
    }

    pub fn new(u64: u64) -> (r: Self)
        ensures
            r@ == u64,
    {
        TapeElement(u64)
    }

    /// How many elements to move forward to get past the tag this element
    /// starts.
    pub fn skip_offset(&self) -> (r: usize)
        requires
            valid_kind_id(self@),
        ensures
            r == (if is_container(elem_kind(self@)) { elem_offset(self@) as int } else { 1 }),
    {
        let k = self.kind();
        if k == TapeTagKind::Compound || k == TapeTagKind::ListList || k
            == TapeTagKind::CompoundList {
            self.approx_len_and_offset().1 as usize
        } else {
            1
        }
    }
}

/// The tape that tags are pushed to while parsing.
pub struct MainTape {
    pub elements: Vec<TapeElement>,
}

impl View for MainTape {
    type V = Seq<u64>;

    open spec fn view(&self) -> Seq<u64> {
        self.elements@.map_values(|e: TapeElement| e@)
    }
}

impl MainTape {
    pub fn new() -> (r: MainTape)
        ensures
            r@ == Seq::<u64>::empty(),
    {
        let r = MainTape { elements: Vec::new() };
        assert(r@ =~= Seq::<u64>::empty());
        r
    }

    pub fn push(&mut self, element: TapeElement)
        ensures
            final(self)@ == old(self)@.push(element@),
    {
        self.elements.push(element);
        assert(self@ =~= old(self)@.push(element@));
    }

    pub fn len(&self) -> (r: usize)
        ensures
            r == self@.len(),
    {
        self.elements.len()
    }

    /// The element at `index`.
    pub fn get(&self, index: usize) -> (r: TapeElement)
        requires
            index < self@.len(),
        ensures
            r@ == self@[index as int],
    {
        self.elements[index]
    }

    /// Sets the span of the container element at `index`.
    pub fn set_offset_at(&mut self, index: usize, offset: u32)
        requires
            index < old(self)@.len(),
            valid_kind_id(old(self)@[index as int]),
        ensures
            final(self)@ == old(self)@.update(
                index as int,
                make_container(
                    elem_kind_id(old(self)@[index as int]),
                    elem_approx_len(old(self)@[index as int]),
                    offset,
                ),
            ),
    {
        let mut e = self.elements[index];
        e.set_offset(offset);
        self.elements.set(index, e);
        assert(self@ =~= old(self)@.update(
            index as int,
            make_container(
                elem_kind_id(old(self)@[index as int]),
                elem_approx_len(old(self)@[index as int]),
                offset,
            ),
        ));
    }
}

/// A 56-bit unsigned number, stored as 8 + 16 + 32 bits.
#[allow(non_camel_case_types)]
#[derive(Debug, Clone, Copy)]
pub struct u56 {
    pub a: u8,
    pub b: u16,
    pub c: u32,
}

impl From<u64> for u56 {
    /// Keeps the low 56 bits.
    fn from(value: u64) -> (r: u56) {
        u56 { a: (value >> 48) as u8, b: (value >> 32) as u16, c: value as u32 }
    }
}

impl vstd::std_specs::convert::FromSpecImpl<u64> for u56 {
    open spec fn obeys_from_spec() -> bool {
        true
    }

    open spec fn from_spec(value: u64) -> u56 {
        u56 { a: (value >> 48u64) as u8, b: (value >> 32u64) as u16, c: value as u32 }
    }
}

impl From<u56> for u64 {
    fn from(value: u56) -> (r: u64) {
        ((value.a as u64) << 48) | ((value.b as u64) << 32) | (value.c as u64)
    }
}

impl vstd::std_specs::convert::FromSpecImpl<u56> for u64 {
    open spec fn obeys_from_spec() -> bool {
        true
    }

    open spec fn from_spec(value: u56) -> u64 {
        ((value.a as u64) << 48u64) | ((value.b as u64) << 32u64) | (value.c as u64)
    }
}

/// Converting to `u56` and back keeps the low 56 bits.
pub proof fn lemma_u56_roundtrip(value: u64)
    ensures
        <u64 as vstd::std_specs::convert::FromSpec<u56>>::from_spec(
            <u56 as vstd::std_specs::convert::FromSpec<u64>>::from_spec(value),
        ) == value & 0xff_ffff_ffff_ffffu64,
{
    assert(((((value >> 48u64) as u8) as u64) << 48u64) | ((((value >> 32u64) as u16) as u64)
        << 32u64) | (((value as u32) as u64)) == value & 0xff_ffff_ffff_ffffu64) by (bit_vector);
}

/// A 24-bit unsigned number, stored as 8 + 16 bits.
#[allow(non_camel_case_types)]
#[derive(Debug, Clone, Copy)]
pub struct u24 {
    pub a: u8,
    pub b: u16,
}

impl From<u32> for u24 {
    /// Keeps the low 24 bits.
    fn from(value: u32) -> (r: u24) {
        u24 { a: (value >> 16) as u8, b: value as u16 }
    }
}

impl vstd::std_specs::convert::FromSpecImpl<u32> for u24 {
    open spec fn obeys_from_spec() -> bool {
        true
    }

    open spec fn from_spec(value: u32) -> u24 {
        u24 { a: (value >> 16u32) as u8, b: value as u16 }
    }
}

impl From<u24> for u32 {
    fn from(value: u24) -> (r: u32) {
        ((value.a as u32) << 16) | (value.b as u32)
    }
}

impl vstd::std_specs::convert::FromSpecImpl<u24> for u32 {
    open spec fn obeys_from_spec() -> bool {
        true
    }

    open spec fn from_spec(value: u24) -> u32 {
        ((value.a as u32) << 16u32) | (value.b as u32)
    }
}

/// A `u64` with no alignment requirement.
#[derive(Debug, Clone, Copy)]
pub struct UnalignedU64(pub u64);

impl From<u64> for UnalignedU64 {
    fn from(value: u64) -> (r: UnalignedU64) {
        UnalignedU64(value)
    }
}

impl vstd::std_specs::convert::FromSpecImpl<u64> for UnalignedU64 {
    open spec fn obeys_from_spec() -> bool {
        true
    }

    open spec fn from_spec(value: u64) -> UnalignedU64 {
        UnalignedU64(value)
    }
}

impl From<UnalignedU64> for u64 {
    fn from(value: UnalignedU64) -> (r: u64) {
        value.0
    }
}

impl vstd::std_specs::convert::FromSpecImpl<UnalignedU64> for u64 {
    open spec fn obeys_from_spec() -> bool {
        true
    }

    open spec fn from_spec(value: UnalignedU64) -> u64 {
        value.0
    }
}

/// A `u32` with no alignment requirement.
#[derive(Debug, Clone, Copy)]
pub struct UnalignedU32(pub u32);

impl From<u32> for UnalignedU32 {
    fn from(value: u32) -> (r: UnalignedU32) {
        UnalignedU32(value)
    }
}

impl vstd::std_specs::convert::FromSpecImpl<u32> for UnalignedU32 {
    open spec fn obeys_from_spec() -> bool {
        true
    }

    open spec fn from_spec(value: u32) -> UnalignedU32 {
        UnalignedU32(value)
    }
}

impl From<UnalignedU32> for u32 {
    fn from(value: UnalignedU32) -> (r: u32) {
        value.0
    }
}

impl vstd::std_specs::convert::FromSpecImpl<UnalignedU32> for u32 {
    open spec fn obeys_from_spec() -> bool {
        true
    }

    open spec fn from_spec(value: UnalignedU32) -> u32 {
        value.0
    }
}

/// A `u16` with no alignment requirement.
#[derive(Debug, Clone, Copy)]
pub struct UnalignedU16(pub u16);

impl From<u16> for UnalignedU16 {
    fn from(value: u16) -> (r: UnalignedU16) {
        UnalignedU16(value)
    }
}

impl vstd::std_specs::convert::FromSpecImpl<u16> for UnalignedU16 {
    open spec fn obeys_from_spec() -> bool {
        true
    }

    open spec fn from_spec(value: u16) -> UnalignedU16 {
        UnalignedU16(value)
    }
}

impl From<UnalignedU16> for u16 {
    fn from(value: UnalignedU16) -> (r: u16) {
        value.0
    }
}

impl vstd::std_specs::convert::FromSpecImpl<UnalignedU16> for u16 {
    open spec fn obeys_from_spec() -> bool {
        true
    }

    open spec fn from_spec(value: UnalignedU16) -> u16 {
        value.0
    }
}

} // verus!
