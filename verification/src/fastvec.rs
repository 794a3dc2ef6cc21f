//! An append-only vector.

use vstd::prelude::*;

verus! {

/// An append-only vector: elements are only ever pushed onto its end.
pub struct FastVec<T> {
    data: Vec<T>,
}

impl<T> View for FastVec<T> {
    type V = Seq<T>;

    /// The elements, in the order they were pushed.
    closed spec fn view(&self) -> Seq<T> {
        self.data@
    }
}

impl<T> FastVec<T> {
    /// An empty vector with room for `capacity` elements.
    pub fn with_capacity(capacity: usize) -> (r: Self)
        ensures
            r@ == Seq::<T>::empty(),
    {
        FastVec { data: Vec::with_capacity(capacity) }
    }

    pub fn push(&mut self, element: T)
        ensures
            final(self)@ == old(self)@.push(element),
    {
        self.data.push(element);
    }

    pub fn len(&self) -> (r: usize)
        ensures
            r == self@.len(),
    {
        self.data.len()
    }

    /// The elements as a `Vec`.
    pub fn into_vec(self) -> (r: Vec<T>)
        ensures
            r@ == self@,
    {
        self.data
    }

    /// Appends the elements of `slice`, in order.
    pub fn extend_from_slice(&mut self, slice: &[T])
        where
            T: Copy,
        ensures
            final(self)@ == old(self)@ + slice@,
    {
        self.reserve(slice.len());
        let mut i: usize = 0;
        while i < slice.len()
            invariant
                i <= slice@.len(),
                self@ == old(self)@ + slice@.subrange(0, i as int),
            decreases slice@.len() - i,
        {
            self.data.push(slice[i]);
            i = i + 1;
            assert(self@ =~= old(self)@ + slice@.subrange(0, i as int));
        }
        assert(slice@.subrange(0, slice@.len() as int) =~= slice@);
    }

    /// Makes room for `additional` more elements; the elements stay as they
    /// are.
    pub fn reserve(&mut self, additional: usize)
        ensures
            final(self)@ == old(self)@,
    {
        self.data.reserve(additional);
    }
}

impl<T> Default for FastVec<T> {
    fn default() -> (r: Self)
        ensures
            r@ == Seq::<T>::empty(),
    {
        FastVec::with_capacity(1)
    }
}

impl<T> From<Vec<T>> for FastVec<T> {
    fn from(vec: Vec<T>) -> (r: FastVec<T>)
        ensures
            r@ == vec@,
    {
        FastVec { data: vec }
    }
}

impl<T> vstd::std_specs::convert::FromSpecImpl<Vec<T>> for FastVec<T> {
    open spec fn obeys_from_spec() -> bool {
        true
    }

    closed spec fn from_spec(vec: Vec<T>) -> FastVec<T> {
        FastVec { data: vec }
    }
}

} // verus!
