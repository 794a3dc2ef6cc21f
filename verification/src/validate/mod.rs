//! Validate NBT without actually reading it.
//!
//! The validator keeps a stack of the containers that are open (compounds,
//! and lists of lists or compounds with the number of elements left) and
//! reads one step at a time until the stack is empty. It accepts exactly what
//! the NBT grammar accepts, and fails with the same error.

pub mod compound;
pub mod list;

use vstd::prelude::*;

pub use self::compound::NbtCompound;
pub use self::list::NbtList;
use self::compound::{read_tag_in_compound, ParsingStack, ParsingStackElementKind};
use self::list::{read_compound_in_list, read_list_in_list};
use crate::common::{read_string, COMPOUND_ID, END_ID, MAX_DEPTH};
use crate::error::Error;
use crate::model::{
    lemma_compounds_bounds, lemma_entries_bounds, lemma_lists_bounds, parse_compounds,
    parse_entries, parse_lists, parse_optional_tag, parse_payload, parse_root, parse_tag,
    parse_unnamed_root,
};
use crate::reader::{lemma_rest_advance, Reader};

verus! {

/// An open container and the number of elements left in it.
pub type Frame = (ParsingStackElementKind, u32);

/// The number of bytes a successful parse read.
pub open spec fn consumed<T>(r: Result<(T, int), Error>) -> Result<int, Error> {
    match r {
        Ok((_, k)) => Ok(k),
        Err(e) => Err(e),
    }
}

/// `r` with `c` more bytes read.
pub open spec fn shift(c: int, r: Result<int, Error>) -> Result<int, Error> {
    match r {
        Ok(k) => Ok(c + k),
        Err(e) => Err(e),
    }
}

/// What finishing the innermost open container reads from `s`.
pub open spec fn parse_frame(s: Seq<u8>, frames: Seq<Frame>) -> Result<int, Error>
    recommends
        frames.len() > 0,
{
    let d = frames.len() as int;
    let (kind, n) = frames.last();
    match kind {
        ParsingStackElementKind::Compound => consumed(parse_entries(s, d)),
        ParsingStackElementKind::ListOfLists => consumed(parse_lists(s, d, n as nat)),
        ParsingStackElementKind::ListOfCompounds => consumed(parse_compounds(s, d, n as nat)),
    }
}

/// What finishing every open container, innermost first, reads from `s`.
pub open spec fn parse_stack(s: Seq<u8>, frames: Seq<Frame>) -> Result<int, Error>
    decreases frames.len(),
{
    if frames.len() == 0 {
        Ok(0)
    } else {
        match parse_frame(s, frames) {
            Err(e) => Err(e),
            Ok(k) => if 0 <= k <= s.len() {
                shift(k, parse_stack(s.subrange(k, s.len() as int), frames.drop_last()))
            } else {
                Err(Error::UnexpectedEof)
            },
        }
    }
}

/// A parse of `s`, followed by finishing the open containers `frames`.
pub open spec fn then_stack<T>(r: Result<(T, int), Error>, s: Seq<u8>, frames: Seq<Frame>) -> Result<int, Error> {
    match r {
        Err(e) => Err(e),
        Ok((_, k)) => if 0 <= k <= s.len() {
            shift(k, parse_stack(s.subrange(k, s.len() as int), frames))
        } else {
            Err(Error::UnexpectedEof)
        },
    }
}

/// A measure of the work that the open containers still hold without
/// reading a byte: lists of compounds open one compound per element.
pub open spec fn weight(frames: Seq<Frame>) -> nat
    decreases frames.len(),
{
    if frames.len() == 0 {
        0
    } else {
        weight(frames.drop_last()) + match frames.last().0 {
            ParsingStackElementKind::Compound => 1nat,
            _ => 2 * frames.last().1 as nat + 1,
        }
    }
}

/// A bound on the steps left to the validator with `b` bytes unread and the
/// open containers `frames`: every step reads bytes or closes a container,
/// and a step that opens a compound without reading leaves it on top of a
/// list, which costs more than a compound on top.
pub open spec fn potential(b: int, frames: Seq<Frame>) -> int {
    3 * b + frames.len() + if frames.len() > 0 && frames.last().0 != ParsingStackElementKind::Compound {
        2int
    } else {
        0int
    }
}

/// A successful finish of the open containers reads between zero bytes and
/// all of them.
pub proof fn lemma_stack_bounds(s: Seq<u8>, frames: Seq<Frame>)
    ensures
        parse_stack(s, frames) matches Ok(k) ==> 0 <= k <= s.len(),
    decreases frames.len(),
{
    if frames.len() > 0 {
        if let Ok(k) = parse_frame(s, frames) {
            if 0 <= k <= s.len() {
                lemma_stack_bounds(s.subrange(k, s.len() as int), frames.drop_last());
            }
        }
    }
}

/// One named tag of the innermost open compound, then the rest.
pub proof fn lemma_entry_step(s: Seq<u8>, frames: Seq<Frame>, k1: int)
    requires
        frames.len() > 0,
        frames.last().0 == ParsingStackElementKind::Compound,
        s.len() >= 1,
        s[0] != END_ID,
        crate::model::parse_string(s.subrange(1, s.len() as int)) matches Ok((_, k)) && k == k1,
    ensures
        parse_stack(s, frames) == shift(1 + k1, then_stack(
            parse_payload(s.subrange(1 + k1, s.len() as int), frames.len() as int, s[0]),
            s.subrange(1 + k1, s.len() as int),
            frames,
        )),
{
    let d = frames.len() as int;
    let s1 = s.subrange(1 + k1, s.len() as int);
    crate::model::lemma_payload_bounds(s1, d, s[0]);
    if let Ok((tag, k2)) = parse_payload(s1, d, s[0]) {
        let s2 = s1.subrange(k2, s1.len() as int);
        lemma_entries_bounds(s2, d);
        if let Ok((es, k3)) = parse_entries(s2, d) {
            assert(s.subrange(1 + k1 + k2 + k3, s.len() as int) =~= s2.subrange(k3, s2.len() as int));
        }
    }
}

/// The next list of the innermost open list of lists, then the rest.
pub proof fn lemma_list_step(s: Seq<u8>, frames: Seq<Frame>)
    requires
        frames.len() > 0,
        frames.last().0 == ParsingStackElementKind::ListOfLists,
        frames.last().1 > 0,
    ensures
        ({
            let f1 = frames.update(frames.len() - 1, (ParsingStackElementKind::ListOfLists, (frames.last().1 - 1) as u32));
            &&& parse_stack(s, frames) == then_stack(crate::model::parse_list(s, frames.len() as int), s, f1)
            &&& weight(f1) + 2 == weight(frames)
        }),
{
    let d = frames.len() as int;
    let n = frames.last().1;
    let f1 = frames.update(frames.len() - 1, (ParsingStackElementKind::ListOfLists, (n - 1) as u32));
    assert(f1.drop_last() =~= frames.drop_last());
    assert(f1.last() == (ParsingStackElementKind::ListOfLists, (n - 1) as u32));
    crate::model::lemma_list_bounds(s, d);
    if let Ok((l, k)) = crate::model::parse_list(s, d) {
        let s2 = s.subrange(k, s.len() as int);
        lemma_lists_bounds(s2, d, (n - 1) as nat);
        if let Ok((v, k2)) = parse_lists(s2, d, (n - 1) as nat) {
            assert(s.subrange(k + k2, s.len() as int) =~= s2.subrange(k2, s2.len() as int));
        }
    }
}

/// The next compound of the innermost open list of compounds is opened.
pub proof fn lemma_compound_in_list_step(s: Seq<u8>, frames: Seq<Frame>)
    requires
        frames.len() > 0,
        frames.last().0 == ParsingStackElementKind::ListOfCompounds,
        frames.last().1 > 0,
    ensures
        ({
            let f1 = frames.update(frames.len() - 1, (ParsingStackElementKind::ListOfCompounds, (frames.last().1 - 1) as u32));
            let f2 = f1.push((ParsingStackElementKind::Compound, 0u32));
            &&& parse_stack(s, frames) == (if frames.len() + 1 < MAX_DEPTH {
                parse_stack(s, f2)
            } else {
                Err(Error::MaxDepthExceeded)
            })
            &&& weight(f2) + 1 == weight(frames)
        }),
{
    let d = frames.len() as int;
    let n = frames.last().1;
    let f1 = frames.update(frames.len() - 1, (ParsingStackElementKind::ListOfCompounds, (n - 1) as u32));
    let f2 = f1.push((ParsingStackElementKind::Compound, 0u32));
    reveal_with_fuel(parse_stack, 2);
    reveal_with_fuel(weight, 2);
    assert(f1.drop_last() =~= frames.drop_last());
    assert(f2.drop_last() =~= f1);
    assert(f1.last() == (ParsingStackElementKind::ListOfCompounds, (n - 1) as u32));
    if d + 1 < MAX_DEPTH {
        lemma_entries_bounds(s, d + 1);
        if let Ok((c, k)) = parse_entries(s, d + 1) {
            let s2 = s.subrange(k, s.len() as int);
            lemma_compounds_bounds(s2, d, (n - 1) as nat);
            if let Ok((v, k2)) = parse_compounds(s2, d, (n - 1) as nat) {
                assert(s.subrange(k + k2, s.len() as int) =~= s2.subrange(k2, s2.len() as int));
            }
        }
    }
}

/// Reads until every open container is finished. Also gives the number of
/// steps taken: at most three per unread byte, plus one per open container,
/// plus two when the innermost one is a list.
fn read_with_stack(data: &mut Reader<'_>, stack: &mut ParsingStack) -> (r: (Result<(), Error>, Ghost<nat>))
    requires
        old(data).wf(),
        old(stack).wf(),
        old(stack)@.len() < MAX_DEPTH,
    ensures
        final(data).wf(),
        match parse_stack(old(data).rest(), old(stack)@) {
            Ok(k) => r.0 is Ok && final(data).advanced(*old(data), k),
            Err(e) => r.0 == Err::<(), Error>(e),
        },
        r.0 is Ok ==> final(stack)@.len() == 0,
        r.1@ <= potential(old(data).rest().len() as int, old(stack)@),
{
    let ghost start = *data;
    let ghost f0 = stack@;
    let ghost mut steps: nat = 0;
    while !stack.is_empty()
        invariant
            start == *old(data),
            f0 == old(stack)@,
            start.wf(),
            data.wf(),
            stack.wf(),
            stack@.len() < MAX_DEPTH,
            data.data@ == start.data@,
            start.cur <= data.cur,
            parse_stack(start.rest(), f0) == shift(data.cur - start.cur, parse_stack(data.rest(), stack@)),
            steps + potential(data.rest().len() as int, stack@) <= potential(start.rest().len() as int, f0),
        decreases data.data@.len() - data.cur, weight(stack@),
    {
        let ghost before = *data;
        let ghost fb = stack@;
        let top = stack.peek();
        let step = match top {
            ParsingStackElementKind::Compound => read_tag_in_compound(data, stack),
            ParsingStackElementKind::ListOfCompounds => read_compound_in_list(data, stack),
            ParsingStackElementKind::ListOfLists => read_list_in_list(data, stack),
        };
        match step {
            Ok(()) => {
                proof {
                    lemma_rest_advance(before, *data, data.cur - before.cur);
                    steps = steps + 1;
                }
            },
            Err(e) => {
                return (Err(e), Ghost(steps));
            },
        }
    }
    (Ok(()), Ghost(steps))
}

/// Read a normal root NBT compound. This is either empty or has a name and
/// compound tag.
pub fn read(data: &mut Reader<'_>) -> (r: Result<(), Error>)
    requires
        old(data).wf(),
    ensures
        final(data).wf(),
        match parse_root(old(data).rest()) {
            Ok((_, k)) => r is Ok && final(data).advanced(*old(data), k),
            Err(e) => r == Err::<(), Error>(e),
        },
{
    let ghost start = *data;
    let root_type = data.read_u8()?;
    if root_type == END_ID {
        return Ok(());
    }
    if root_type != COMPOUND_ID {
        return Err(Error::InvalidRootType(root_type));
    }
    let ghost after_type = *data;
    proof {
        lemma_rest_advance(start, after_type, 1);
    }
    read_string(data)?;
    proof {
        lemma_rest_advance(after_type, *data, data.cur - after_type.cur);
        assert(data.rest() =~= start.rest().subrange(1 + (data.cur - after_type.cur), start.rest().len() as int));
    }
    read_compound(data)
}

/// Read a root NBT compound, but without reading the name. This is used in
/// Minecraft when reading NBT over the network.
pub fn read_unnamed(data: &mut Reader<'_>) -> (r: Result<(), Error>)
    requires
        old(data).wf(),
    ensures
        final(data).wf(),
        match parse_unnamed_root(old(data).rest()) {
            Ok((_, k)) => r is Ok && final(data).advanced(*old(data), k),
            Err(e) => r == Err::<(), Error>(e),
        },
{
    let ghost start = *data;
    let root_type = data.read_u8()?;
    if root_type == END_ID {
        return Ok(());
    }
    if root_type != COMPOUND_ID {
        return Err(Error::InvalidRootType(root_type));
    }
    proof {
        lemma_rest_advance(start, *data, 1);
    }
    read_compound(data)
}

/// Read a compound tag. This may have any number of items.
pub fn read_compound(data: &mut Reader<'_>) -> (r: Result<(), Error>)
    requires
        old(data).wf(),
    ensures
        final(data).wf(),
        match parse_entries(old(data).rest(), 1) {
            Ok((_, k)) => r is Ok && final(data).advanced(*old(data), k),
            Err(e) => r == Err::<(), Error>(e),
        },
{
    let mut stack = ParsingStack::new();
    stack.push(ParsingStackElementKind::Compound)?;
    proof {
        let f = stack@;
        assert(f.drop_last() =~= Seq::<Frame>::empty());
        lemma_entries_bounds(data.rest(), 1);
        if let Ok((_, k)) = parse_entries(data.rest(), 1) {
            assert(parse_stack(data.rest().subrange(k, data.rest().len() as int), f.drop_last()) == Ok::<int, Error>(0));
        }
    }
    read_with_stack(data, &mut stack).0
}

/// Reads a tag of the given type, without its name, at depth 0.
pub fn internal_read_tag(data: &mut Reader<'_>, tag_type: u8) -> (r: Result<(), Error>)
    requires
        old(data).wf(),
    ensures
        final(data).wf(),
        match parse_payload(old(data).rest(), 0, tag_type) {
            Ok((_, k)) => r is Ok && final(data).advanced(*old(data), k),
            Err(e) => r == Err::<(), Error>(e),
        },
{
    let ghost start = *data;
    let mut stack = ParsingStack::new();
    proof {
        crate::model::lemma_payload_bounds(start.rest(), 0, tag_type);
    }
    compound::read_tag(data, &mut stack, tag_type)?;
    let ghost mid = *data;
    let r = read_with_stack(data, &mut stack).0;
    proof {
        lemma_stack_bounds(mid.rest(), stack@);
        lemma_rest_advance(start, mid, mid.cur - start.cur);
        if let Ok((_, k)) = parse_payload(start.rest(), 0, tag_type) {
            assert(parse_stack(start.rest().subrange(k, start.rest().len() as int), Seq::<Frame>::empty()) == Ok::<int, Error>(0));
        }
    }
    r
}

/// Read any NBT tag, without reading its name. This may be any type of tag,
/// including an end tag.
pub fn read_optional_tag(data: &mut Reader<'_>) -> (r: Result<(), Error>)
    requires
        old(data).wf(),
    ensures
        final(data).wf(),
        match parse_optional_tag(old(data).rest()) {
            Ok((_, k)) => r is Ok && final(data).advanced(*old(data), k),
            Err(e) => r == Err::<(), Error>(e),
        },
{
    let ghost start = *data;
    let tag_type = data.read_u8()?;
    if tag_type == END_ID {
        return Ok(());
    }
    proof {
        lemma_rest_advance(start, *data, 1);
    }
    internal_read_tag(data, tag_type)
}

/// Read an NBT tag, without reading its name. This may be any type of tag
/// except for an end tag.
pub fn read_tag(data: &mut Reader<'_>) -> (r: Result<(), Error>)
    requires
        old(data).wf(),
    ensures
        final(data).wf(),
        match parse_tag(old(data).rest()) {
            Ok((_, k)) => r is Ok && final(data).advanced(*old(data), k),
            Err(e) => r == Err::<(), Error>(e),
        },
{
    let ghost start = *data;
    let tag_type = data.read_u8()?;
    if tag_type == END_ID {
        return Err(Error::InvalidRootType(0));
    }
    proof {
        lemma_rest_advance(start, *data, 1);
    }
    internal_read_tag(data, tag_type)
}

} // verus!
