//! How the owned reader parses NBT.
//!
//! The owned reader counts depth its own way: the root compound is at depth
//! 0, every compound and every list, whatever its elements, is one deeper
//! than its container, and a compound or list whose depth exceeds
//! `MAX_DEPTH` is refused as soon as it is entered. Everything else is read
//! as the shared format in `model` says.

use vstd::prelude::*;

use crate::common::{spec_u32_be, COMPOUND_ID, END_ID, LIST_ID, MAX_DEPTH};
use crate::error::Error;
use crate::model::{
    lemma_list_bounds, lemma_payload_bounds, parse_compounds, parse_entries, parse_list,
    parse_lists, parse_payload, parse_root, parse_string, ListModel, TagModel,
};

verus! {

/// The payload of a tag of type `t` inside a compound at depth `d`.
pub open spec fn owned_parse_payload(s: Seq<u8>, d: int, t: u8) -> Result<(TagModel, int), Error>
    decreases s.len(), 1nat, 0nat,
{
    if t == LIST_ID {
        match owned_parse_list(s, d + 1) {
            Err(e) => Err(e),
            Ok((l, k)) => Ok((TagModel::List(l), k)),
        }
    } else if t == COMPOUND_ID {
        match owned_parse_entries(s, d + 1) {
            Err(e) => Err(e),
            Ok((es, k)) => Ok((TagModel::Compound(es), k)),
        }
    } else {
        parse_payload(s, d, t)
    }
}

/// The named tags of a compound at depth `d`, up to and including its end
/// tag.
pub open spec fn owned_parse_entries(s: Seq<u8>, d: int) -> Result<(Seq<(Seq<u8>, TagModel)>, int), Error>
    decreases s.len(), 0nat, 0nat,
{
    if d > MAX_DEPTH {
        Err(Error::MaxDepthExceeded)
    } else if s.len() < 1 {
        Err(Error::UnexpectedEof)
    } else if s[0] == END_ID {
        Ok((seq![], 1))
    } else {
        match parse_string(s.subrange(1, s.len() as int)) {
            Err(e) => Err(e),
            Ok((name, k1)) => {
                let s1 = s.subrange(1 + k1, s.len() as int);
                match owned_parse_payload(s1, d, s[0]) {
                    Err(e) => Err(e),
                    Ok((tag, k2)) => if k2 < 0 || k2 > s1.len() {
                        Err(Error::UnexpectedEof)
                    } else {
                        match owned_parse_entries(s1.subrange(k2, s1.len() as int), d) {
                            Err(e) => Err(e),
                            Ok((rest, k3)) => Ok((seq![(name, tag)] + rest, 1 + k1 + k2 + k3)),
                        }
                    },
                }
            },
        }
    }
}

/// A list (element type, count, elements) at depth `d`; its elements that
/// are lists or compounds are at depth `d + 1`.
pub open spec fn owned_parse_list(s: Seq<u8>, d: int) -> Result<(ListModel, int), Error>
    decreases s.len(), 0nat, 0nat,
{
    if d > MAX_DEPTH {
        Err(Error::MaxDepthExceeded)
    } else if s.len() >= 1 && (s[0] == LIST_ID || s[0] == COMPOUND_ID) {
        let s1 = s.subrange(1, s.len() as int);
        if s1.len() < 4 {
            Err(Error::UnexpectedEof)
        } else {
            let n = spec_u32_be(s1) as nat;
            let s2 = s1.subrange(4, s1.len() as int);
            if s[0] == LIST_ID {
                match owned_parse_lists(s2, d + 1, n) {
                    Err(e) => Err(e),
                    Ok((a, k)) => Ok((ListModel::List(a), 5 + k)),
                }
            } else {
                match owned_parse_compounds(s2, d + 1, n) {
                    Err(e) => Err(e),
                    Ok((a, k)) => Ok((ListModel::Compound(a), 5 + k)),
                }
            }
        }
    } else {
        parse_list(s, d)
    }
}

/// `n` lists at depth `d`, the elements of a list of lists.
pub open spec fn owned_parse_lists(s: Seq<u8>, d: int, n: nat) -> Result<(Seq<ListModel>, int), Error>
    decreases s.len(), 1nat, n,
{
    if n == 0 {
        Ok((seq![], 0))
    } else {
        match owned_parse_list(s, d) {
            Err(e) => Err(e),
            Ok((l, k)) => if k < 0 || k > s.len() {
                Err(Error::UnexpectedEof)
            } else {
                match owned_parse_lists(s.subrange(k, s.len() as int), d, (n - 1) as nat) {
                    Err(e) => Err(e),
                    Ok((rest, k2)) => Ok((seq![l] + rest, k + k2)),
                }
            },
        }
    }
}

/// `n` compounds at depth `d`, the elements of a list of compounds.
pub open spec fn owned_parse_compounds(s: Seq<u8>, d: int, n: nat) -> Result<(Seq<Seq<(Seq<u8>, TagModel)>>, int), Error>
    decreases s.len(), 1nat, n,
{
    if n == 0 {
        Ok((seq![], 0))
    } else {
        match owned_parse_entries(s, d) {
            Err(e) => Err(e),
            Ok((c, k)) => if k < 0 || k > s.len() {
                Err(Error::UnexpectedEof)
            } else {
                match owned_parse_compounds(s.subrange(k, s.len() as int), d, (n - 1) as nat) {
                    Err(e) => Err(e),
                    Ok((rest, k2)) => Ok((seq![c] + rest, k + k2)),
                }
            },
        }
    }
}

/// A root as the owned reader reads it: its tag type (end for no data, else
/// compound), then for a compound its name and its named tags at depth 0.
pub open spec fn owned_parse_root(s: Seq<u8>) -> Result<(Option<(Seq<u8>, Seq<(Seq<u8>, TagModel)>)>, int), Error> {
    if s.len() < 1 {
        Err(Error::UnexpectedEof)
    } else if s[0] == END_ID {
        Ok((None, 1))
    } else if s[0] != COMPOUND_ID {
        Err(Error::InvalidRootType(s[0]))
    } else {
        match parse_string(s.subrange(1, s.len() as int)) {
            Err(e) => Err(e),
            Ok((name, k1)) => match owned_parse_entries(s.subrange(1 + k1, s.len() as int), 0) {
                Err(e) => Err(e),
                Ok((es, k2)) => Ok((Some((name, es)), 1 + k1 + k2)),
            },
        }
    }
}

// ---------------------------------------------------------------------------
// A successful parse reads between zero bytes and all of them.

pub proof fn lemma_owned_payload_bounds(s: Seq<u8>, d: int, t: u8)
    ensures
        owned_parse_payload(s, d, t) matches Ok((_, k)) ==> 0 <= k <= s.len(),
    decreases s.len(), 1nat, 0nat,
{
    if t == LIST_ID {
        lemma_owned_list_bounds(s, d + 1);
    } else if t == COMPOUND_ID {
        lemma_owned_entries_bounds(s, d + 1);
    } else {
        lemma_payload_bounds(s, d, t);
    }
}

pub proof fn lemma_owned_entries_bounds(s: Seq<u8>, d: int)
    ensures
        owned_parse_entries(s, d) matches Ok((_, k)) ==> 0 <= k <= s.len(),
    decreases s.len(), 0nat, 0nat,
{
    if d <= MAX_DEPTH && s.len() >= 1 && s[0] != END_ID {
        if let Ok((name, k1)) = parse_string(s.subrange(1, s.len() as int)) {
            let s1 = s.subrange(1 + k1, s.len() as int);
            lemma_owned_payload_bounds(s1, d, s[0]);
            if let Ok((tag, k2)) = owned_parse_payload(s1, d, s[0]) {
                if 0 <= k2 <= s1.len() {
                    lemma_owned_entries_bounds(s1.subrange(k2, s1.len() as int), d);
                }
            }
        }
    }
}

pub proof fn lemma_owned_list_bounds(s: Seq<u8>, d: int)
    ensures
        owned_parse_list(s, d) matches Ok((_, k)) ==> 0 <= k <= s.len(),
    decreases s.len(), 0nat, 0nat,
{
    lemma_list_bounds(s, d);
    if d <= MAX_DEPTH && s.len() >= 5 && (s[0] == LIST_ID || s[0] == COMPOUND_ID) {
        let s1 = s.subrange(1, s.len() as int);
        let n = spec_u32_be(s1) as nat;
        let s2 = s1.subrange(4, s1.len() as int);
        if s[0] == LIST_ID {
            lemma_owned_lists_bounds(s2, d + 1, n);
        } else {
            lemma_owned_compounds_bounds(s2, d + 1, n);
        }
    }
}

pub proof fn lemma_owned_lists_bounds(s: Seq<u8>, d: int, n: nat)
    ensures
        owned_parse_lists(s, d, n) matches Ok((_, k)) ==> 0 <= k <= s.len(),
    decreases s.len(), 1nat, n,
{
    if n > 0 {
        lemma_owned_list_bounds(s, d);
        if let Ok((l, k)) = owned_parse_list(s, d) {
            if 0 <= k <= s.len() {
                lemma_owned_lists_bounds(s.subrange(k, s.len() as int), d, (n - 1) as nat);
            }
        }
    }
}

pub proof fn lemma_owned_compounds_bounds(s: Seq<u8>, d: int, n: nat)
    ensures
        owned_parse_compounds(s, d, n) matches Ok((_, k)) ==> 0 <= k <= s.len(),
    decreases s.len(), 1nat, n,
{
    if n > 0 {
        lemma_owned_entries_bounds(s, d);
        if let Ok((c, k)) = owned_parse_entries(s, d) {
            if 0 <= k <= s.len() {
                lemma_owned_compounds_bounds(s.subrange(k, s.len() as int), d, (n - 1) as nat);
            }
        }
    }
}

// ---------------------------------------------------------------------------
// What the shared reading accepts, the owned reader reads the same way.

/// A payload that the shared reading accepts inside a container at depth
/// `d >= 1` is read the same by the owned reader at depth `d - 1`.
pub proof fn lemma_owned_payload_agrees(s: Seq<u8>, d: int, t: u8)
    requires
        parse_payload(s, d, t) is Ok,
        1 <= d < MAX_DEPTH,
    ensures
        owned_parse_payload(s, d - 1, t) == parse_payload(s, d, t),
    decreases s.len(), 1nat, 0nat,
{
    if t == LIST_ID {
        lemma_owned_list_agrees(s, d);
    } else if t == COMPOUND_ID {
        lemma_owned_entries_agrees(s, d + 1);
    }
}

/// The named tags of a compound that the shared reading accepts at depth
/// `d >= 1` are read the same by the owned reader at depth `d - 1`.
pub proof fn lemma_owned_entries_agrees(s: Seq<u8>, d: int)
    requires
        parse_entries(s, d) is Ok,
        1 <= d < MAX_DEPTH,
    ensures
        owned_parse_entries(s, d - 1) == parse_entries(s, d),
    decreases s.len(), 0nat, 0nat,
{
    if s[0] != END_ID {
        let (name, k1) = parse_string(s.subrange(1, s.len() as int))->Ok_0;
        let s1 = s.subrange(1 + k1, s.len() as int);
        let (tag, k2) = parse_payload(s1, d, s[0])->Ok_0;
        lemma_owned_payload_agrees(s1, d, s[0]);
        lemma_owned_entries_agrees(s1.subrange(k2, s1.len() as int), d);
    }
}

/// A list that the shared reading accepts at depth `d` is read the same by
/// the owned reader at depth `d`.
pub proof fn lemma_owned_list_agrees(s: Seq<u8>, d: int)
    requires
        parse_list(s, d) is Ok,
        0 <= d < MAX_DEPTH,
    ensures
        owned_parse_list(s, d) == parse_list(s, d),
    decreases s.len(), 0nat, 0nat,
{
    if s[0] == LIST_ID || s[0] == COMPOUND_ID {
        let s1 = s.subrange(1, s.len() as int);
        let n = spec_u32_be(s1) as nat;
        let s2 = s1.subrange(4, s1.len() as int);
        if s[0] == LIST_ID {
            lemma_owned_lists_agrees(s2, d + 1, n);
        } else {
            lemma_owned_compounds_agrees(s2, d + 1, n);
        }
    }
}

/// `n` lists that the shared reading accepts at depth `d` are read the same
/// by the owned reader.
pub proof fn lemma_owned_lists_agrees(s: Seq<u8>, d: int, n: nat)
    requires
        parse_lists(s, d, n) is Ok,
        0 <= d < MAX_DEPTH,
    ensures
        owned_parse_lists(s, d, n) == parse_lists(s, d, n),
    decreases s.len(), 1nat, n,
{
    if n > 0 {
        let (l, k) = parse_list(s, d)->Ok_0;
        lemma_owned_list_agrees(s, d);
        lemma_owned_lists_agrees(s.subrange(k, s.len() as int), d, (n - 1) as nat);
    }
}

/// `n` compounds that the shared reading accepts at depth `d` are read the
/// same by the owned reader.
pub proof fn lemma_owned_compounds_agrees(s: Seq<u8>, d: int, n: nat)
    requires
        parse_compounds(s, d, n) is Ok,
        0 <= d,
    ensures
        owned_parse_compounds(s, d, n) == parse_compounds(s, d, n),
    decreases s.len(), 1nat, n,
{
    if n > 0 {
        let (c, k) = parse_entries(s, d + 1)->Ok_0;
        lemma_owned_entries_agrees(s, d + 1);
        lemma_owned_compounds_agrees(s.subrange(k, s.len() as int), d, (n - 1) as nat);
    }
}

/// Whatever NBT the shared reading (the borrowed and validating readers)
/// accepts, the owned reader reads to the same NBT, taking the same bytes.
pub proof fn lemma_owned_root_agrees(s: Seq<u8>)
    requires
        parse_root(s) is Ok,
    ensures
        owned_parse_root(s) == parse_root(s),
{
    if s[0] == COMPOUND_ID {
        let (name, k1) = parse_string(s.subrange(1, s.len() as int))->Ok_0;
        lemma_owned_entries_agrees(s.subrange(1 + k1, s.len() as int), 1);
    }
}

} // verus!
