//! Validating lists.

use vstd::prelude::*;

use super::compound::{NbtCompound, ParsingStack, ParsingStackElementKind};
use super::{parse_stack, potential, shift, then_stack, weight, Frame};
use crate::common::{
    read_with_u32_length, skip_string_seq, skip_u32_prefixed_seq, BYTE_ARRAY_ID, BYTE_ID,
    COMPOUND_ID, DOUBLE_ID, END_ID, FLOAT_ID, INT_ARRAY_ID, INT_ID, LIST_ID, LONG_ARRAY_ID,
    LONG_ID, MAX_DEPTH, SHORT_ID, STRING_ID,
};
use crate::error::Error;
use crate::model::{
    lemma_list_bounds, lemma_string_seq_bounds, lemma_u32_prefixed_seq_bounds, parse_list,
};
use crate::reader::{lemma_rest_advance, Reader};

verus! {

/// A list being validated.
#[derive(Debug, Clone, Copy)]
pub struct NbtList;

impl NbtList {
    /// Reads a list in the innermost open container; a list of lists or
    /// compounds is opened.
    #[verifier::rlimit(40)]
    pub fn read(data: &mut Reader<'_>, stack: &mut ParsingStack) -> (r: Result<(), Error>)
        requires
            old(data).wf(),
            old(stack).wf(),
            old(stack)@.len() < MAX_DEPTH,
        ensures
            final(data).wf(),
            final(stack).wf(),
            r is Ok ==> {
                &&& final(stack)@.len() < MAX_DEPTH
                &&& final(data).data@ == old(data).data@
                &&& old(data).cur < final(data).cur
                &&& then_stack(parse_list(old(data).rest(), old(stack)@.len() as int), old(data).rest(), old(stack)@)
                    == shift(final(data).cur - old(data).cur, parse_stack(final(data).rest(), final(stack)@))
                &&& old(data).cur + 5 <= final(data).cur
                &&& (final(stack)@ == old(stack)@ || (final(stack)@.drop_last() == old(stack)@
                    && final(stack)@.len() == old(stack)@.len() + 1
                    && final(stack)@.last().0 != ParsingStackElementKind::Compound))
            },
            r is Err ==> then_stack(parse_list(old(data).rest(), old(stack)@.len() as int), old(data).rest(), old(stack)@)
                == Err::<int, Error>(r->Err_0),
    {
        let ghost start = *data;
        let ghost f = stack@;
        let ghost d = f.len() as int;
        proof {
            lemma_list_bounds(start.rest(), d);
        }
        let tag_type = data.read_u8()?;
        let ghost after_type = *data;
        proof {
            lemma_rest_advance(start, after_type, 1);
        }
        let res = if tag_type == END_ID {
            data.skip(4)
        } else if tag_type == BYTE_ID {
            match read_with_u32_length(data, 1) { Ok(_) => Ok(()), Err(e) => Err(e) }
        } else if tag_type == SHORT_ID {
            match read_with_u32_length(data, 2) { Ok(_) => Ok(()), Err(e) => Err(e) }
        } else if tag_type == INT_ID || tag_type == FLOAT_ID {
            match read_with_u32_length(data, 4) { Ok(_) => Ok(()), Err(e) => Err(e) }
        } else if tag_type == LONG_ID || tag_type == DOUBLE_ID {
            match read_with_u32_length(data, 8) { Ok(_) => Ok(()), Err(e) => Err(e) }
        } else if !(tag_type == BYTE_ARRAY_ID || tag_type == STRING_ID || tag_type == LIST_ID
            || tag_type == COMPOUND_ID || tag_type == INT_ARRAY_ID || tag_type == LONG_ARRAY_ID) {
            Err(Error::UnknownTagId(tag_type))
        } else {
            let length = data.read_u32()?;
            let ghost after_count = *data;
            proof {
                lemma_rest_advance(after_type, after_count, 4);
                lemma_u32_prefixed_seq_bounds(after_count.rest(), length as nat, 1);
                lemma_u32_prefixed_seq_bounds(after_count.rest(), length as nat, 4);
                lemma_u32_prefixed_seq_bounds(after_count.rest(), length as nat, 8);
                lemma_string_seq_bounds(after_count.rest(), length as nat);
            }
            if tag_type == BYTE_ARRAY_ID {
                skip_u32_prefixed_seq(data, length, 1)
            } else if tag_type == STRING_ID {
                skip_string_seq(data, length)
            } else if tag_type == INT_ARRAY_ID {
                skip_u32_prefixed_seq(data, length, 4)
            } else if tag_type == LONG_ARRAY_ID {
                skip_u32_prefixed_seq(data, length, 8)
            } else {
                let kind = if tag_type == LIST_ID {
                    ParsingStackElementKind::ListOfLists
                } else {
                    ParsingStackElementKind::ListOfCompounds
                };
                stack.push(kind)?;
                stack.set_list_length(length);
                proof {
                    let f2 = stack@;
                    let s0 = start.rest();
                    let s2 = after_count.rest();
                    assert(f2.drop_last() =~= f);
                    assert(f2.last() == (kind, length));
                    assert(f2.len() == d + 1);
                    assert(s2 =~= s0.subrange(5, s0.len() as int));
                    assert(after_type.rest() =~= s0.subrange(1, s0.len() as int));
                    crate::model::lemma_lists_bounds(s2, d + 1, length as nat);
                    crate::model::lemma_compounds_bounds(s2, d + 1, length as nat);
                    if tag_type == LIST_ID {
                        if let Ok((a, k)) = crate::model::parse_lists(s2, d + 1, length as nat) {
                            assert(s0.subrange(5 + k, s0.len() as int) =~= s2.subrange(k, s2.len() as int));
                        }
                    } else {
                        if let Ok((a, k)) = crate::model::parse_compounds(s2, d + 1, length as nat) {
                            assert(s0.subrange(5 + k, s0.len() as int) =~= s2.subrange(k, s2.len() as int));
                        }
                    }
                }
                return Ok(());
            }
        };
        match res {
            Ok(()) => {
                proof {
                    lemma_rest_advance(start, *data, data.cur - start.cur);
                }
                Ok(())
            },
            Err(e) => Err(e),
        }
    }
}

/// Reads the next step of the innermost open list of lists: closes it when
/// no element is left, else reads the next list.
pub fn read_list_in_list(data: &mut Reader<'_>, stack: &mut ParsingStack) -> (r: Result<(), Error>)
    requires
        old(data).wf(),
        old(stack).wf(),
        0 < old(stack)@.len() < MAX_DEPTH,
        old(stack)@.last().0 == ParsingStackElementKind::ListOfLists,
    ensures
        final(data).wf(),
        final(stack).wf(),
        r is Ok ==> {
            &&& final(stack)@.len() < MAX_DEPTH
            &&& final(data).data@ == old(data).data@
            &&& old(data).cur <= final(data).cur
            &&& potential(final(data).rest().len() as int, final(stack)@) < potential(old(data).rest().len() as int, old(stack)@)
            &&& (old(data).cur < final(data).cur || weight(final(stack)@) < weight(old(stack)@))
            &&& parse_stack(old(data).rest(), old(stack)@)
                == shift(final(data).cur - old(data).cur, parse_stack(final(data).rest(), final(stack)@))
        },
        r is Err ==> parse_stack(old(data).rest(), old(stack)@) == Err::<int, Error>(r->Err_0),
{
    let ghost f = stack@;
    let remaining = stack.remaining_elements_in_list();
    if remaining == 0 {
        stack.pop();
        proof {
            assert(data.rest().subrange(0, data.rest().len() as int) =~= data.rest());
        }
        return Ok(());
    }
    stack.decrement_list_length();
    proof {
        super::lemma_list_step(data.rest(), f);
    }
    NbtList::read(data, stack)
}

/// Reads the next step of the innermost open list of compounds: closes it
/// when no element is left, else opens the next compound.
pub fn read_compound_in_list(data: &mut Reader<'_>, stack: &mut ParsingStack) -> (r: Result<(), Error>)
    requires
        old(data).wf(),
        old(stack).wf(),
        0 < old(stack)@.len() < MAX_DEPTH,
        old(stack)@.last().0 == ParsingStackElementKind::ListOfCompounds,
    ensures
        final(data).wf(),
        final(stack).wf(),
        r is Ok ==> {
            &&& final(stack)@.len() < MAX_DEPTH
            &&& final(data).data@ == old(data).data@
            &&& old(data).cur <= final(data).cur
            &&& potential(final(data).rest().len() as int, final(stack)@) < potential(old(data).rest().len() as int, old(stack)@)
            &&& (old(data).cur < final(data).cur || weight(final(stack)@) < weight(old(stack)@))
            &&& parse_stack(old(data).rest(), old(stack)@)
                == shift(final(data).cur - old(data).cur, parse_stack(final(data).rest(), final(stack)@))
        },
        r is Err ==> parse_stack(old(data).rest(), old(stack)@) == Err::<int, Error>(r->Err_0),
{
    let ghost f = stack@;
    let remaining = stack.remaining_elements_in_list();
    if remaining == 0 {
        stack.pop();
        proof {
            assert(data.rest().subrange(0, data.rest().len() as int) =~= data.rest());
        }
        return Ok(());
    }
    stack.decrement_list_length();
    let ghost f1 = stack@;
    let r = NbtCompound::read(data, stack);
    proof {
        super::lemma_compound_in_list_step(data.rest(), f);
        assert(stack@.drop_last() =~= f1);
    }
    r
}

} // verus!
