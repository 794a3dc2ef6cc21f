//! Lists of numbers kept as big-endian bytes.

use core::marker::PhantomData;

use vstd::prelude::*;

use crate::swap_endianness::{
    group, numbers_from_be, swap_endianness, swap_endianness_as_u8, swapped, SwappableNumber,
};
use crate::thin_slices::Slice32Bit;

verus! {

/// A list of numbers that's kept as big-endian in memory.
pub struct RawList<'a, T> {
    data: Slice32Bit<'a>,
    _marker: PhantomData<T>,
}

impl<'a, T> View for RawList<'a, T> {
    type V = Seq<u8>;

    /// The big-endian bytes.
    closed spec fn view(&self) -> Seq<u8> {
        self.data@
    }
}

impl<'a, T: SwappableNumber> RawList<'a, T> {
    pub closed spec fn wf(&self) -> bool {
        self.data.wf()
    }

    pub fn new(data: Slice32Bit<'a>) -> (r: Self)
        requires
            data.wf(),
        ensures
            r@ == data@,
            r.wf(),
    {
        RawList { data, _marker: PhantomData }
    }

    pub fn new_from_slice(data: &'a [u8]) -> (r: Self)
        requires
            data@.len() <= u32::MAX,
        ensures
            r@ == data@,
            r.wf(),
    {
        Self::new(Slice32Bit::new(data))
    }

    /// The number of whole numbers.
    pub fn len(&self) -> (r: usize)
        requires
            self.wf(),
        ensures
            r == self@.len() / T::spec_width(),
    {
        (self.data.len() / T::width() as u32) as usize
    }

    pub fn is_empty(&self) -> (r: bool)
        ensures
            r <==> self@.len() == 0,
    {
        self.data.is_empty()
    }

    /// The numbers.
    pub fn to_vec(&self) -> (r: Vec<T>)
        ensures
            r@ == numbers_from_be::<T>(self@),
    {
        swap_endianness::<T>(self.data.as_slice())
    }

    /// The bytes of the numbers, each number's bytes reversed.
    pub fn to_little_endian(&self) -> (r: Vec<u8>)
        ensures
            r@ == swapped(self@, self@.len() / T::spec_width(), T::spec_width()),
            r@.len() == self@.len(),
            forall|i: int| 0 <= i < self@.len() / T::spec_width() ==> #[trigger] group(r@, i, T::spec_width())
                == group(self@, i, T::spec_width()).reverse(),
    {
        swap_endianness_as_u8::<T>(self.data.as_slice())
    }

    /// The big-endian bytes.
    pub fn as_big_endian(&self) -> (r: &'a [u8])
        ensures
            r@ == self@,
    {
        self.data.as_slice()
    }
}

} // verus!
