//! Byte slices whose length is kept in 32 or 16 bits.

use vstd::prelude::*;

verus! {

/// A byte slice whose length fits in a `u32`.
#[derive(Clone, Copy)]
pub struct Slice32Bit<'a> {
    slice: &'a [u8],
}

impl<'a> View for Slice32Bit<'a> {
    type V = Seq<u8>;

    closed spec fn view(&self) -> Seq<u8> {
        self.slice@
    }
}

impl<'a> Slice32Bit<'a> {
    /// The length fits in a `u32`.
    pub closed spec fn wf(&self) -> bool {
        self.slice@.len() <= u32::MAX
    }

    pub fn new(slice: &'a [u8]) -> (r: Self)
        requires
            slice@.len() <= u32::MAX,
        ensures
            r@ == slice@,
            r.wf(),
    {
        Slice32Bit { slice }
    }

    pub fn len(&self) -> (r: u32)
        requires
            self.wf(),
        ensures
            r == self@.len(),
    {
        self.slice.len() as u32
    }

    pub fn is_empty(&self) -> (r: bool)
        ensures
            r <==> self@.len() == 0,
    {
        self.slice.len() == 0
    }

    /// The bytes.
    pub fn as_slice(&self) -> (r: &'a [u8])
        ensures
            r@ == self@,
    {
        self.slice
    }
}

/// A byte slice whose length fits in a `u16`.
#[derive(Clone, Copy)]
pub struct Slice16Bit<'a> {
    slice: &'a [u8],
}

impl<'a> View for Slice16Bit<'a> {
    type V = Seq<u8>;

    closed spec fn view(&self) -> Seq<u8> {
        self.slice@
    }
}

impl<'a> Slice16Bit<'a> {
    /// The length fits in a `u16`.
    pub closed spec fn wf(&self) -> bool {
        self.slice@.len() <= u16::MAX
    }

    pub fn new(slice: &'a [u8]) -> (r: Self)
        requires
            slice@.len() <= u16::MAX,
        ensures
            r@ == slice@,
            r.wf(),
    {
        Slice16Bit { slice }
    }

    pub fn len(&self) -> (r: u16)
        requires
            self.wf(),
        ensures
            r == self@.len(),
    {
        self.slice.len() as u16
    }

    pub fn is_empty(&self) -> (r: bool)
        ensures
            r <==> self@.len() == 0,
    {
        self.slice.len() == 0
    }

    /// The bytes.
    pub fn as_slice(&self) -> (r: &'a [u8])
        ensures
            r@ == self@,
    {
        self.slice
    }
}

} // verus!
