//! Validating compounds, and the stack of open containers.

use vstd::prelude::*;

use super::list::NbtList;
use super::{lemma_entry_step, lemma_stack_bounds, parse_stack, potential, shift, then_stack, weight, Frame};
use crate::common::{
    read_int_array, read_long_array, read_string, read_with_u32_length, BYTE_ARRAY_ID, BYTE_ID,
    COMPOUND_ID, DOUBLE_ID, END_ID, FLOAT_ID, INT_ARRAY_ID, INT_ID, LIST_ID, LONG_ARRAY_ID,
    LONG_ID, MAX_DEPTH, SHORT_ID, STRING_ID,
};
use crate::error::Error;
use crate::model::{
    lemma_payload_bounds, parse_entries, parse_payload, parse_string,
};
use crate::reader::{lemma_rest_advance, Reader};

verus! {

/// A compound being validated.
#[derive(Debug, Clone, Copy)]
pub struct NbtCompound;

impl NbtCompound {
    /// Opens a compound: compounds have no header, so nothing is read.
    pub fn read(_data: &mut Reader<'_>, stack: &mut ParsingStack) -> (r: Result<(), Error>)
        requires
            old(stack).wf(),
        ensures
            *final(_data) == *old(_data),
            final(stack).wf(),
            final(stack)@ == old(stack)@.push((ParsingStackElementKind::Compound, 0u32)),
            r is Ok <==> old(stack)@.len() + 1 < MAX_DEPTH,
            r is Err ==> r == Err::<(), Error>(Error::MaxDepthExceeded),
    {
        stack.push(ParsingStackElementKind::Compound)
    }
}

/// What an open container is.
#[derive(Debug, Clone, Copy, PartialEq, Eq, Structural)]
pub enum ParsingStackElementKind {
    Compound,
    ListOfCompounds,
    ListOfLists,
}

/// The open containers, innermost last, each with the number of elements
/// left to read when it is a list.
pub struct ParsingStack {
    stack: Vec<ParsingStackElementKind>,
    remaining_elements_in_lists: Vec<u32>,
}

impl View for ParsingStack {
    type V = Seq<Frame>;

    closed spec fn view(&self) -> Seq<Frame> {
        Seq::new(self.stack@.len(), |i: int| (self.stack@[i], self.remaining_elements_in_lists@[i]))
    }
}

impl ParsingStack {
    pub closed spec fn wf(&self) -> bool {
        self.stack@.len() == self.remaining_elements_in_lists@.len()
    }

    pub fn new() -> (r: ParsingStack)
        ensures
            r.wf(),
            r@ == Seq::<Frame>::empty(),
    {
        let r = ParsingStack { stack: Vec::new(), remaining_elements_in_lists: Vec::new() };
        assert(r@ =~= Seq::<Frame>::empty());
        r
    }

    /// Opens a container; fails when that reaches the maximum depth (the
    /// container is still pushed).
    pub fn push(&mut self, state: ParsingStackElementKind) -> (r: Result<(), Error>)
        requires
            old(self).wf(),
        ensures
            final(self).wf(),
            final(self)@ == old(self)@.push((state, 0u32)),
            r is Ok <==> old(self)@.len() + 1 < MAX_DEPTH,
            r is Err ==> r == Err::<(), Error>(Error::MaxDepthExceeded),
    {
        self.stack.push(state);
        self.remaining_elements_in_lists.push(0);
        assert(self@ =~= old(self)@.push((state, 0u32)));
        if self.stack.len() >= MAX_DEPTH {
            Err(Error::MaxDepthExceeded)
        } else {
            Ok(())
        }
    }

    /// Sets the number of elements left in the innermost container.
    pub fn set_list_length(&mut self, length: u32)
        requires
            old(self).wf(),
            old(self)@.len() > 0,
        ensures
            final(self).wf(),
            final(self)@ == old(self)@.update(old(self)@.len() - 1, (old(self)@.last().0, length)),
    {
        let i = self.remaining_elements_in_lists.len() - 1;
        self.remaining_elements_in_lists.set(i, length);
        assert(self@ =~= old(self)@.update(old(self)@.len() - 1, (old(self)@.last().0, length)));
    }

    /// Counts one element of the innermost container as read.
    pub fn decrement_list_length(&mut self)
        requires
            old(self).wf(),
            old(self)@.len() > 0,
            old(self)@.last().1 > 0,
        ensures
            final(self).wf(),
            final(self)@ == old(self)@.update(old(self)@.len() - 1, (old(self)@.last().0, (old(self)@.last().1 - 1) as u32)),
    {
        let i = self.remaining_elements_in_lists.len() - 1;
        let n = self.remaining_elements_in_lists[i];
        self.remaining_elements_in_lists.set(i, n - 1);
        assert(self@ =~= old(self)@.update(old(self)@.len() - 1, (old(self)@.last().0, (old(self)@.last().1 - 1) as u32)));
    }

    /// The number of elements left in the innermost container.
    pub fn remaining_elements_in_list(&self) -> (r: u32)
        requires
            self.wf(),
            self@.len() > 0,
        ensures
            r == self@.last().1,
    {
        self.remaining_elements_in_lists[self.remaining_elements_in_lists.len() - 1]
    }

    /// Closes the innermost container.
    pub fn pop(&mut self) -> (r: ParsingStackElementKind)
        requires
            old(self).wf(),
            old(self)@.len() > 0,
        ensures
            final(self).wf(),
            final(self)@ == old(self)@.drop_last(),
            r == old(self)@.last().0,
    {
        let r = self.stack.pop().unwrap();
        self.remaining_elements_in_lists.pop();
        assert(self@ =~= old(self)@.drop_last());
        r
    }

    /// The innermost container.
    pub fn peek(&self) -> (r: ParsingStackElementKind)
        requires
            self.wf(),
            self@.len() > 0,
        ensures
            r == self@.last().0,
    {
        self.stack[self.stack.len() - 1]
    }

    pub fn is_empty(&self) -> (r: bool)
        requires
            self.wf(),
        ensures
            r <==> self@.len() == 0,
    {
        self.stack.len() == 0
    }

    /// The number of open containers.
    pub fn depth(&self) -> (r: usize)
        requires
            self.wf(),
        ensures
            r == self@.len(),
    {
        self.stack.len()
    }
}

/// Reads the payload of a tag of type `tag_type` in the innermost
/// container; for a compound or a list of lists or compounds, opens it.
pub fn read_tag(data: &mut Reader<'_>, stack: &mut ParsingStack, tag_type: u8) -> (r: Result<(), Error>)
    requires
        old(data).wf(),
        old(stack).wf(),
        old(stack)@.len() < MAX_DEPTH,
    ensures
        final(data).wf(),
        final(stack).wf(),
        r is Ok ==> {
            &&& final(stack)@.len() < MAX_DEPTH
            &&& final(data).data@ == old(data).data@
            &&& old(data).cur <= final(data).cur
            &&& then_stack(parse_payload(old(data).rest(), old(stack)@.len() as int, tag_type), old(data).rest(), old(stack)@)
                == shift(final(data).cur - old(data).cur, parse_stack(final(data).rest(), final(stack)@))
            &&& potential(final(data).rest().len() as int, final(stack)@) <= potential(old(data).rest().len() as int, old(stack)@) + 1
        },
        r is Err ==> then_stack(parse_payload(old(data).rest(), old(stack)@.len() as int, tag_type), old(data).rest(), old(stack)@)
            == Err::<int, Error>(r->Err_0),
{
    let ghost s = data.rest();
    let ghost d = stack@.len() as int;
    proof {
        lemma_payload_bounds(s, d, tag_type);
    }
    let ghost start = *data;
    if tag_type == COMPOUND_ID {
        let r = NbtCompound::read(data, stack);
        proof {
            assert(stack@.drop_last() =~= old(stack)@);
        }
        return r;
    }
    if tag_type == LIST_ID {
        return NbtList::read(data, stack);
    }
    let res = if tag_type == BYTE_ID {
        match data.read_i8() { Ok(_) => Ok(()), Err(e) => Err(e) }
    } else if tag_type == SHORT_ID {
        match data.read_i16() { Ok(_) => Ok(()), Err(e) => Err(e) }
    } else if tag_type == INT_ID {
        match data.read_i32() { Ok(_) => Ok(()), Err(e) => Err(e) }
    } else if tag_type == LONG_ID {
        data.skip(8)
    } else if tag_type == FLOAT_ID {
        match data.read_u32() { Ok(_) => Ok(()), Err(e) => Err(e) }
    } else if tag_type == DOUBLE_ID {
        data.skip(8)
    } else if tag_type == BYTE_ARRAY_ID {
        match read_with_u32_length(data, 1) { Ok(_) => Ok(()), Err(e) => Err(e) }
    } else if tag_type == STRING_ID {
        match read_string(data) { Ok(_) => Ok(()), Err(e) => Err(e) }
    } else if tag_type == INT_ARRAY_ID {
        match read_with_u32_length(data, 4) { Ok(_) => Ok(()), Err(e) => Err(e) }
    } else if tag_type == LONG_ARRAY_ID {
        match read_with_u32_length(data, 8) { Ok(_) => Ok(()), Err(e) => Err(e) }
    } else {
        Err(Error::UnknownTagId(tag_type))
    };
    match res {
        Ok(()) => {
            proof {
                lemma_rest_advance(start, *data, data.cur - start.cur);
            }
            Ok(())
        },
        Err(e) => Err(e),
    }
}

/// Reads the next step of the innermost open compound: either its end tag,
/// which closes it, or a named tag.
#[verifier::rlimit(40)]
#[verifier::spinoff_prover]
pub fn read_tag_in_compound(data: &mut Reader<'_>, stack: &mut ParsingStack) -> (r: Result<(), Error>)
    requires
        old(data).wf(),
        old(stack).wf(),
        0 < old(stack)@.len() < MAX_DEPTH,
        old(stack)@.last().0 == ParsingStackElementKind::Compound,
    ensures
        final(data).wf(),
        final(stack).wf(),
        r is Ok ==> {
            &&& final(stack)@.len() < MAX_DEPTH
            &&& final(data).data@ == old(data).data@
            &&& old(data).cur < final(data).cur
            &&& parse_stack(old(data).rest(), old(stack)@)
                == shift(final(data).cur - old(data).cur, parse_stack(final(data).rest(), final(stack)@))
            &&& potential(final(data).rest().len() as int, final(stack)@) < potential(old(data).rest().len() as int, old(stack)@)
        },
        r is Err ==> parse_stack(old(data).rest(), old(stack)@) == Err::<int, Error>(r->Err_0),
{
    let ghost start = *data;
    let ghost f = stack@;
    let tag_type = data.read_u8()?;
    let ghost after_type = *data;
    proof {
        lemma_rest_advance(start, after_type, 1);
    }
    if tag_type == END_ID {
        stack.pop();
        proof {
            assert(parse_entries(start.rest(), f.len() as int) == Ok::<(Seq<(Seq<u8>, crate::model::TagModel)>, int), Error>((seq![], 1)));
        }
        return Ok(());
    }
    let name = read_string(data);
    match name {
        Err(e) => {
            proof {
                assert(after_type.rest() =~= start.rest().subrange(1, start.rest().len() as int));
            }
            return Err(e);
        },
        Ok(_) => {},
    }
    let ghost after_name = *data;
    let ghost k1 = after_name.cur - after_type.cur;
    proof {
        lemma_rest_advance(after_type, after_name, k1);
        assert(after_type.rest() =~= start.rest().subrange(1, start.rest().len() as int));
        assert(after_name.rest() =~= start.rest().subrange(1 + k1, start.rest().len() as int));
        lemma_entry_step(start.rest(), f, k1);
    }
    read_tag(data, stack, tag_type)
}

} // verus!
