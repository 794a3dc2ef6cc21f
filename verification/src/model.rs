//! The mathematical model of NBT data, and the binary format as spec
//! functions: how bytes parse into tags and how tags are written as bytes.
//!
//! Depths count open containers as the borrowed and validating readers'
//! stacks do: the root compound is at depth 1, every nested compound, list of
//! lists and list of compounds adds one, and opening one at depth `MAX_DEPTH`
//! or more fails. The owned reader counts depth its own way; see
//! `owned::format`.

use vstd::prelude::*;

use crate::common::{
    spec_u16_be, spec_u16_to_be, spec_u32_be, spec_u32_to_be, spec_u64_be, spec_u64_to_be,
    BYTE_ARRAY_ID, BYTE_ID, COMPOUND_ID, DOUBLE_ID, END_ID, FLOAT_ID, INT_ARRAY_ID, INT_ID,
    LIST_ID, LONG_ARRAY_ID, LONG_ID, MAX_DEPTH, SHORT_ID, STRING_ID,
};
use crate::error::Error;

verus! {

/// A tag's value. Floats are kept as their IEEE-754 bits.
pub enum TagModel {
    Byte(i8),
    Short(i16),
    Int(i32),
    Long(i64),
    Float(u32),
    Double(u64),
    ByteArray(Seq<u8>),
    String(Seq<u8>),
    List(ListModel),
    Compound(Seq<(Seq<u8>, TagModel)>),
    IntArray(Seq<i32>),
    LongArray(Seq<i64>),
}

/// A list's value: every element has the same type.
pub enum ListModel {
    Empty,
    Byte(Seq<i8>),
    Short(Seq<i16>),
    Int(Seq<i32>),
    Long(Seq<i64>),
    Float(Seq<u32>),
    Double(Seq<u64>),
    ByteArray(Seq<Seq<u8>>),
    String(Seq<Seq<u8>>),
    List(Seq<ListModel>),
    Compound(Seq<Seq<(Seq<u8>, TagModel)>>),
    IntArray(Seq<Seq<i32>>),
    LongArray(Seq<Seq<i64>>),
}

// ---------------------------------------------------------------------------
// Numbers

pub open spec fn decode_i8s(s: Seq<u8>) -> Seq<i8> {
    Seq::new(s.len(), |i: int| s[i] as i8)
}

pub open spec fn decode_i16s(s: Seq<u8>) -> Seq<i16> {
    Seq::new(s.len() / 2, |i: int| spec_u16_be(s.subrange(2 * i, 2 * i + 2)) as i16)
}

pub open spec fn decode_u32s(s: Seq<u8>) -> Seq<u32> {
    Seq::new(s.len() / 4, |i: int| spec_u32_be(s.subrange(4 * i, 4 * i + 4)))
}

pub open spec fn decode_i32s(s: Seq<u8>) -> Seq<i32> {
    Seq::new(s.len() / 4, |i: int| spec_u32_be(s.subrange(4 * i, 4 * i + 4)) as i32)
}

pub open spec fn decode_u64s(s: Seq<u8>) -> Seq<u64> {
    Seq::new(s.len() / 8, |i: int| spec_u64_be(s.subrange(8 * i, 8 * i + 8)))
}

pub open spec fn decode_i64s(s: Seq<u8>) -> Seq<i64> {
    Seq::new(s.len() / 8, |i: int| spec_u64_be(s.subrange(8 * i, 8 * i + 8)) as i64)
}

// ---------------------------------------------------------------------------
// Parsing

/// A `u32` element count followed by that many elements of `width` bytes:
/// the element bytes and the number of bytes read.
pub open spec fn parse_u32_prefixed(s: Seq<u8>, width: nat) -> Result<(Seq<u8>, int), Error> {
    if s.len() < 4 {
        Err(Error::UnexpectedEof)
    } else {
        let n = spec_u32_be(s) as nat * width;
        if s.len() - 4 < n {
            Err(Error::UnexpectedEof)
        } else {
            Ok((s.subrange(4, 4 + n as int), 4 + n as int))
        }
    }
}

/// A `u16` byte length followed by that many bytes.
pub open spec fn parse_string(s: Seq<u8>) -> Result<(Seq<u8>, int), Error> {
    if s.len() < 2 {
        Err(Error::UnexpectedEof)
    } else {
        let n = spec_u16_be(s) as int;
        if s.len() - 2 < n {
            Err(Error::UnexpectedEof)
        } else {
            Ok((s.subrange(2, 2 + n), 2 + n))
        }
    }
}

/// `n` consecutive `u32`-prefixed arrays of `width`-byte elements.
pub open spec fn parse_u32_prefixed_seq(s: Seq<u8>, n: nat, width: nat) -> Result<(Seq<Seq<u8>>, int), Error>
    decreases n,
{
    if n == 0 {
        Ok((seq![], 0))
    } else {
        match parse_u32_prefixed(s, width) {
            Err(e) => Err(e),
            Ok((a, k)) => match parse_u32_prefixed_seq(s.subrange(k, s.len() as int), (n - 1) as nat, width) {
                Err(e) => Err(e),
                Ok((rest, k2)) => Ok((seq![a] + rest, k + k2)),
            },
        }
    }
}

/// `n` consecutive strings.
pub open spec fn parse_string_seq(s: Seq<u8>, n: nat) -> Result<(Seq<Seq<u8>>, int), Error>
    decreases n,
{
    if n == 0 {
        Ok((seq![], 0))
    } else {
        match parse_string(s) {
            Err(e) => Err(e),
            Ok((a, k)) => match parse_string_seq(s.subrange(k, s.len() as int), (n - 1) as nat) {
                Err(e) => Err(e),
                Ok((rest, k2)) => Ok((seq![a] + rest, k + k2)),
            },
        }
    }
}

/// The payload of a tag of type `t` whose container is at depth `d`.
pub open spec fn parse_payload(s: Seq<u8>, d: int, t: u8) -> Result<(TagModel, int), Error>
    decreases s.len(), 1nat, 0nat,
{
    if t == BYTE_ID {
        if s.len() < 1 { Err(Error::UnexpectedEof) } else { Ok((TagModel::Byte(s[0] as i8), 1)) }
    } else if t == SHORT_ID {
        if s.len() < 2 { Err(Error::UnexpectedEof) } else { Ok((TagModel::Short(spec_u16_be(s) as i16), 2)) }
    } else if t == INT_ID {
        if s.len() < 4 { Err(Error::UnexpectedEof) } else { Ok((TagModel::Int(spec_u32_be(s) as i32), 4)) }
    } else if t == LONG_ID {
        if s.len() < 8 { Err(Error::UnexpectedEof) } else { Ok((TagModel::Long(spec_u64_be(s) as i64), 8)) }
    } else if t == FLOAT_ID {
        if s.len() < 4 { Err(Error::UnexpectedEof) } else { Ok((TagModel::Float(spec_u32_be(s)), 4)) }
    } else if t == DOUBLE_ID {
        if s.len() < 8 { Err(Error::UnexpectedEof) } else { Ok((TagModel::Double(spec_u64_be(s)), 8)) }
    } else if t == BYTE_ARRAY_ID {
        match parse_u32_prefixed(s, 1) {
            Err(e) => Err(e),
            Ok((a, k)) => Ok((TagModel::ByteArray(a), k)),
        }
    } else if t == STRING_ID {
        match parse_string(s) {
            Err(e) => Err(e),
            Ok((a, k)) => Ok((TagModel::String(a), k)),
        }
    } else if t == LIST_ID {
        match parse_list(s, d) {
            Err(e) => Err(e),
            Ok((l, k)) => Ok((TagModel::List(l), k)),
        }
    } else if t == COMPOUND_ID {
        if d + 1 >= MAX_DEPTH {
            Err(Error::MaxDepthExceeded)
        } else {
            match parse_entries(s, d + 1) {
                Err(e) => Err(e),
                Ok((es, k)) => Ok((TagModel::Compound(es), k)),
            }
        }
    } else if t == INT_ARRAY_ID {
        match parse_u32_prefixed(s, 4) {
            Err(e) => Err(e),
            Ok((a, k)) => Ok((TagModel::IntArray(decode_i32s(a)), k)),
        }
    } else if t == LONG_ARRAY_ID {
        match parse_u32_prefixed(s, 8) {
            Err(e) => Err(e),
            Ok((a, k)) => Ok((TagModel::LongArray(decode_i64s(a)), k)),
        }
    } else {
        Err(Error::UnknownTagId(t))
    }
}

/// The named tags of a compound at depth `d`, up to and including its end tag.
pub open spec fn parse_entries(s: Seq<u8>, d: int) -> Result<(Seq<(Seq<u8>, TagModel)>, int), Error>
    decreases s.len(), 0nat, 0nat,
{
    if s.len() < 1 {
        Err(Error::UnexpectedEof)
    } else if s[0] == END_ID {
        Ok((seq![], 1))
    } else {
        match parse_string(s.subrange(1, s.len() as int)) {
            Err(e) => Err(e),
            Ok((name, k1)) => {
                let s1 = s.subrange(1 + k1, s.len() as int);
                match parse_payload(s1, d, s[0]) {
                    Err(e) => Err(e),
                    Ok((tag, k2)) => if k2 < 0 || k2 > s1.len() {
                        Err(Error::UnexpectedEof)
                    } else {
                        match parse_entries(s1.subrange(k2, s1.len() as int), d) {
                            Err(e) => Err(e),
                            Ok((rest, k3)) => Ok((seq![(name, tag)] + rest, 1 + k1 + k2 + k3)),
                        }
                    },
                }
            },
        }
    }
}

/// A list (element type, count, elements) whose container is at depth `d`.
pub open spec fn parse_list(s: Seq<u8>, d: int) -> Result<(ListModel, int), Error>
    decreases s.len(), 0nat, 0nat,
{
    if s.len() < 1 {
        Err(Error::UnexpectedEof)
    } else {
        let t = s[0];
        let s1 = s.subrange(1, s.len() as int);
        if t == END_ID {
            if s1.len() < 4 { Err(Error::UnexpectedEof) } else { Ok((ListModel::Empty, 5)) }
        } else if t == BYTE_ID {
            match parse_u32_prefixed(s1, 1) {
                Err(e) => Err(e),
                Ok((a, k)) => Ok((ListModel::Byte(decode_i8s(a)), 1 + k)),
            }
        } else if t == SHORT_ID {
            match parse_u32_prefixed(s1, 2) {
                Err(e) => Err(e),
                Ok((a, k)) => Ok((ListModel::Short(decode_i16s(a)), 1 + k)),
            }
        } else if t == INT_ID {
            match parse_u32_prefixed(s1, 4) {
                Err(e) => Err(e),
                Ok((a, k)) => Ok((ListModel::Int(decode_i32s(a)), 1 + k)),
            }
        } else if t == LONG_ID {
            match parse_u32_prefixed(s1, 8) {
                Err(e) => Err(e),
                Ok((a, k)) => Ok((ListModel::Long(decode_i64s(a)), 1 + k)),
            }
        } else if t == FLOAT_ID {
            match parse_u32_prefixed(s1, 4) {
                Err(e) => Err(e),
                Ok((a, k)) => Ok((ListModel::Float(decode_u32s(a)), 1 + k)),
            }
        } else if t == DOUBLE_ID {
            match parse_u32_prefixed(s1, 8) {
                Err(e) => Err(e),
                Ok((a, k)) => Ok((ListModel::Double(decode_u64s(a)), 1 + k)),
            }
        } else if s1.len() < 4 && (t == BYTE_ARRAY_ID || t == STRING_ID || t == LIST_ID
            || t == COMPOUND_ID || t == INT_ARRAY_ID || t == LONG_ARRAY_ID) {
            Err(Error::UnexpectedEof)
        } else {
            let n = spec_u32_be(s1) as nat;
            let s2 = s1.subrange(4, s1.len() as int);
            if t == BYTE_ARRAY_ID {
                match parse_u32_prefixed_seq(s2, n, 1) {
                    Err(e) => Err(e),
                    Ok((a, k)) => Ok((ListModel::ByteArray(a), 5 + k)),
                }
            } else if t == STRING_ID {
                match parse_string_seq(s2, n) {
                    Err(e) => Err(e),
                    Ok((a, k)) => Ok((ListModel::String(a), 5 + k)),
                }
            } else if t == LIST_ID {
                if d + 1 >= MAX_DEPTH {
                    Err(Error::MaxDepthExceeded)
                } else {
                    match parse_lists(s2, d + 1, n) {
                        Err(e) => Err(e),
                        Ok((a, k)) => Ok((ListModel::List(a), 5 + k)),
                    }
                }
            } else if t == COMPOUND_ID {
                if d + 1 >= MAX_DEPTH {
                    Err(Error::MaxDepthExceeded)
                } else {
                    match parse_compounds(s2, d + 1, n) {
                        Err(e) => Err(e),
                        Ok((a, k)) => Ok((ListModel::Compound(a), 5 + k)),
                    }
                }
            } else if t == INT_ARRAY_ID {
                match parse_u32_prefixed_seq(s2, n, 4) {
                    Err(e) => Err(e),
                    Ok((a, k)) => Ok((ListModel::IntArray(a.map_values(|x: Seq<u8>| decode_i32s(x))), 5 + k)),
                }
            } else if t == LONG_ARRAY_ID {
                match parse_u32_prefixed_seq(s2, n, 8) {
                    Err(e) => Err(e),
                    Ok((a, k)) => Ok((ListModel::LongArray(a.map_values(|x: Seq<u8>| decode_i64s(x))), 5 + k)),
                }
            } else {
                Err(Error::UnknownTagId(t))
            }
        }
    }
}

/// `n` lists, the elements of a list of lists at depth `d`.
pub open spec fn parse_lists(s: Seq<u8>, d: int, n: nat) -> Result<(Seq<ListModel>, int), Error>
    decreases s.len(), 1nat, n,
{
    if n == 0 {
        Ok((seq![], 0))
    } else {
        match parse_list(s, d) {
            Err(e) => Err(e),
            Ok((l, k)) => if k < 0 || k > s.len() {
                Err(Error::UnexpectedEof)
            } else {
                match parse_lists(s.subrange(k, s.len() as int), d, (n - 1) as nat) {
                    Err(e) => Err(e),
                    Ok((rest, k2)) => Ok((seq![l] + rest, k + k2)),
                }
            },
        }
    }
}

/// `n` compounds, the elements of a list of compounds at depth `d`.
pub open spec fn parse_compounds(s: Seq<u8>, d: int, n: nat) -> Result<(Seq<Seq<(Seq<u8>, TagModel)>>, int), Error>
    decreases s.len(), 1nat, n,
{
    if n == 0 {
        Ok((seq![], 0))
    } else if d + 1 >= MAX_DEPTH {
        Err(Error::MaxDepthExceeded)
    } else {
        match parse_entries(s, d + 1) {
            Err(e) => Err(e),
            Ok((c, k)) => if k < 0 || k > s.len() {
                Err(Error::UnexpectedEof)
            } else {
                match parse_compounds(s.subrange(k, s.len() as int), d, (n - 1) as nat) {
                    Err(e) => Err(e),
                    Ok((rest, k2)) => Ok((seq![c] + rest, k + k2)),
                }
            },
        }
    }
}

/// A root: its tag type (end for no data, else compound), then for a
/// compound its name and its named tags at depth 1.
pub open spec fn parse_root(s: Seq<u8>) -> Result<(Option<(Seq<u8>, Seq<(Seq<u8>, TagModel)>)>, int), Error> {
    if s.len() < 1 {
        Err(Error::UnexpectedEof)
    } else if s[0] == END_ID {
        Ok((None, 1))
    } else if s[0] != COMPOUND_ID {
        Err(Error::InvalidRootType(s[0]))
    } else {
        match parse_string(s.subrange(1, s.len() as int)) {
            Err(e) => Err(e),
            Ok((name, k1)) => match parse_entries(s.subrange(1 + k1, s.len() as int), 1) {
                Err(e) => Err(e),
                Ok((es, k2)) => Ok((Some((name, es)), 1 + k1 + k2)),
            },
        }
    }
}

/// A root without a name: its tag type (end for no data, else compound),
/// then for a compound its named tags at depth 1.
pub open spec fn parse_unnamed_root(s: Seq<u8>) -> Result<(Option<Seq<(Seq<u8>, TagModel)>>, int), Error> {
    if s.len() < 1 {
        Err(Error::UnexpectedEof)
    } else if s[0] == END_ID {
        Ok((None, 1))
    } else if s[0] != COMPOUND_ID {
        Err(Error::InvalidRootType(s[0]))
    } else {
        match parse_entries(s.subrange(1, s.len() as int), 1) {
            Err(e) => Err(e),
            Ok((es, k)) => Ok((Some(es), 1 + k)),
        }
    }
}

/// A tag without a name: its type, then its payload at depth 0; an end tag
/// gives `None`.
pub open spec fn parse_optional_tag(s: Seq<u8>) -> Result<(Option<TagModel>, int), Error> {
    if s.len() < 1 {
        Err(Error::UnexpectedEof)
    } else if s[0] == END_ID {
        Ok((None, 1))
    } else {
        match parse_payload(s.subrange(1, s.len() as int), 0, s[0]) {
            Err(e) => Err(e),
            Ok((t, k)) => Ok((Some(t), 1 + k)),
        }
    }
}

/// A tag without a name, which must not be an end tag.
pub open spec fn parse_tag(s: Seq<u8>) -> Result<(TagModel, int), Error> {
    match parse_optional_tag(s) {
        Err(e) => Err(e),
        Ok((None, _)) => Err(Error::InvalidRootType(END_ID)),
        Ok((Some(t), k)) => Ok((t, k)),
    }
}

// ---------------------------------------------------------------------------
// A successful parse reads between zero bytes and all of them.

pub proof fn lemma_u32_prefixed_seq_bounds(s: Seq<u8>, n: nat, width: nat)
    ensures
        parse_u32_prefixed_seq(s, n, width) matches Ok((_, k)) ==> 0 <= k <= s.len(),
    decreases n,
{
    if n > 0 {
        if let Ok((a, k)) = parse_u32_prefixed(s, width) {
            lemma_u32_prefixed_seq_bounds(s.subrange(k, s.len() as int), (n - 1) as nat, width);
        }
    }
}

pub proof fn lemma_string_seq_bounds(s: Seq<u8>, n: nat)
    ensures
        parse_string_seq(s, n) matches Ok((_, k)) ==> 0 <= k <= s.len(),
    decreases n,
{
    if n > 0 {
        if let Ok((a, k)) = parse_string(s) {
            lemma_string_seq_bounds(s.subrange(k, s.len() as int), (n - 1) as nat);
        }
    }
}

pub proof fn lemma_payload_bounds(s: Seq<u8>, d: int, t: u8)
    ensures
        parse_payload(s, d, t) matches Ok((_, k)) ==> 0 <= k <= s.len(),
    decreases s.len(), 1nat, 0nat,
{
    if t == LIST_ID {
        lemma_list_bounds(s, d);
    } else if t == COMPOUND_ID {
        lemma_entries_bounds(s, d + 1);
    }
}

pub proof fn lemma_entries_bounds(s: Seq<u8>, d: int)
    ensures
        parse_entries(s, d) matches Ok((_, k)) ==> 0 <= k <= s.len(),
    decreases s.len(), 0nat, 0nat,
{
    if s.len() >= 1 && s[0] != END_ID {
        if let Ok((name, k1)) = parse_string(s.subrange(1, s.len() as int)) {
            let s1 = s.subrange(1 + k1, s.len() as int);
            lemma_payload_bounds(s1, d, s[0]);
            if let Ok((tag, k2)) = parse_payload(s1, d, s[0]) {
                if 0 <= k2 <= s1.len() {
                    lemma_entries_bounds(s1.subrange(k2, s1.len() as int), d);
                }
            }
        }
    }
}

pub proof fn lemma_list_bounds(s: Seq<u8>, d: int)
    ensures
        parse_list(s, d) matches Ok((_, k)) ==> 0 <= k <= s.len(),
    decreases s.len(), 0nat, 0nat,
{
    if s.len() >= 5 {
        let t = s[0];
        let s1 = s.subrange(1, s.len() as int);
        let n = spec_u32_be(s1) as nat;
        let s2 = s1.subrange(4, s1.len() as int);
        if t == BYTE_ARRAY_ID {
            lemma_u32_prefixed_seq_bounds(s2, n, 1);
        } else if t == STRING_ID {
            lemma_string_seq_bounds(s2, n);
        } else if t == LIST_ID {
            lemma_lists_bounds(s2, d + 1, n);
        } else if t == COMPOUND_ID {
            lemma_compounds_bounds(s2, d + 1, n);
        } else if t == INT_ARRAY_ID {
            lemma_u32_prefixed_seq_bounds(s2, n, 4);
        } else if t == LONG_ARRAY_ID {
            lemma_u32_prefixed_seq_bounds(s2, n, 8);
        }
    }
}

pub proof fn lemma_lists_bounds(s: Seq<u8>, d: int, n: nat)
    ensures
        parse_lists(s, d, n) matches Ok((_, k)) ==> 0 <= k <= s.len(),
    decreases s.len(), 1nat, n,
{
    if n > 0 {
        lemma_list_bounds(s, d);
        if let Ok((l, k)) = parse_list(s, d) {
            if 0 <= k <= s.len() {
                lemma_lists_bounds(s.subrange(k, s.len() as int), d, (n - 1) as nat);
            }
        }
    }
}

pub proof fn lemma_compounds_bounds(s: Seq<u8>, d: int, n: nat)
    ensures
        parse_compounds(s, d, n) matches Ok((_, k)) ==> 0 <= k <= s.len(),
    decreases s.len(), 1nat, n,
{
    if n > 0 && d + 1 < MAX_DEPTH {
        lemma_entries_bounds(s, d + 1);
        if let Ok((c, k)) = parse_entries(s, d + 1) {
            if 0 <= k <= s.len() {
                lemma_compounds_bounds(s.subrange(k, s.len() as int), d, (n - 1) as nat);
            }
        }
    }
}

/// A successful parse of `n` lists gives `n` lists.
pub proof fn lemma_lists_count(s: Seq<u8>, d: int, n: nat)
    ensures
        parse_lists(s, d, n) matches Ok((v, _)) ==> v.len() == n,
    decreases n,
{
    if n > 0 {
        if let Ok((l, k)) = parse_list(s, d) {
            if 0 <= k <= s.len() {
                lemma_lists_count(s.subrange(k, s.len() as int), d, (n - 1) as nat);
            }
        }
    }
}

/// A successful parse of `n` compounds gives `n` compounds.
pub proof fn lemma_compounds_count(s: Seq<u8>, d: int, n: nat)
    ensures
        parse_compounds(s, d, n) matches Ok((v, _)) ==> v.len() == n,
    decreases n,
{
    if n > 0 && d + 1 < MAX_DEPTH {
        if let Ok((c, k)) = parse_entries(s, d + 1) {
            if 0 <= k <= s.len() {
                lemma_compounds_count(s.subrange(k, s.len() as int), d, (n - 1) as nat);
            }
        }
    }
}

/// `r` with `done` in front of its items and `k` more bytes read.
pub open spec fn prepend<A>(done: Seq<A>, k: int, r: Result<(Seq<A>, int), Error>) -> Result<(Seq<A>, int), Error> {
    match r {
        Ok((rest, k2)) => Ok((done + rest, k + k2)),
        Err(e) => Err(e),
    }
}

/// Prepending in two steps is prepending once.
pub proof fn lemma_prepend_push<A>(done: Seq<A>, k: int, a: A, k1: int, r: Result<(Seq<A>, int), Error>)
    ensures
        prepend(done, k, prepend(seq![a], k1, r)) == prepend(done.push(a), k + k1, r),
{
    match r {
        Ok((rest, k2)) => {
            assert(done + (seq![a] + rest) =~= done.push(a) + rest);
        },
        Err(_) => {},
    }
}

/// The value of the first entry named `key`.
pub open spec fn lookup(es: Seq<(Seq<u8>, TagModel)>, key: Seq<u8>) -> Option<TagModel>
    decreases es.len(),
{
    if es.len() == 0 {
        None
    } else if es[0].0 == key {
        Some(es[0].1)
    } else {
        lookup(es.drop_first(), key)
    }
}

/// Skipping entries with other names does not change a lookup.
pub proof fn lemma_lookup_skip(es: Seq<(Seq<u8>, TagModel)>, key: Seq<u8>, i: int)
    requires
        0 <= i <= es.len(),
        forall|j: int| 0 <= j < i ==> #[trigger] es[j].0 != key,
    ensures
        lookup(es, key) == lookup(es.subrange(i, es.len() as int), key),
    decreases i,
{
    if i > 0 {
        assert(es[0].0 != key);
        let t = es.drop_first();
        assert forall|j: int| 0 <= j < i - 1 implies #[trigger] t[j].0 != key by {
            assert(t[j] == es[j + 1]);
        }
        lemma_lookup_skip(t, key, i - 1);
        assert(t.subrange(i - 1, t.len() as int) =~= es.subrange(i, es.len() as int));
    } else {
        assert(es.subrange(0, es.len() as int) =~= es);
    }
}

/// Whether an entry is named `key`.
pub open spec fn has_key(es: Seq<(Seq<u8>, TagModel)>, key: Seq<u8>) -> bool {
    exists|j: int| 0 <= j < es.len() && #[trigger] es[j].0 == key
}

/// A lookup finds something exactly when an entry has the name.
pub proof fn lemma_lookup_has_key(es: Seq<(Seq<u8>, TagModel)>, key: Seq<u8>)
    ensures
        lookup(es, key) is Some <==> has_key(es, key),
    decreases es.len(),
{
    if es.len() > 0 {
        let t = es.drop_first();
        lemma_lookup_has_key(t, key);
        if has_key(t, key) {
            let j = choose|j: int| 0 <= j < t.len() && #[trigger] t[j].0 == key;
            assert(es[j + 1].0 == key);
        }
        if has_key(es, key) && es[0].0 != key {
            let j = choose|j: int| 0 <= j < es.len() && #[trigger] es[j].0 == key;
            assert(t[j - 1].0 == key);
        }
    }
}

// ---------------------------------------------------------------------------
// Writing

/// The tag id of a tag.
pub open spec fn tag_id(t: TagModel) -> u8 {
    match t {
        TagModel::Byte(_) => BYTE_ID,
        TagModel::Short(_) => SHORT_ID,
        TagModel::Int(_) => INT_ID,
        TagModel::Long(_) => LONG_ID,
        TagModel::Float(_) => FLOAT_ID,
        TagModel::Double(_) => DOUBLE_ID,
        TagModel::ByteArray(_) => BYTE_ARRAY_ID,
        TagModel::String(_) => STRING_ID,
        TagModel::List(_) => LIST_ID,
        TagModel::Compound(_) => COMPOUND_ID,
        TagModel::IntArray(_) => INT_ARRAY_ID,
        TagModel::LongArray(_) => LONG_ARRAY_ID,
    }
}

/// The tag id of a list's elements (`END_ID` for an empty-typed list).
pub open spec fn list_id(l: ListModel) -> u8 {
    match l {
        ListModel::Empty => END_ID,
        ListModel::Byte(_) => BYTE_ID,
        ListModel::Short(_) => SHORT_ID,
        ListModel::Int(_) => INT_ID,
        ListModel::Long(_) => LONG_ID,
        ListModel::Float(_) => FLOAT_ID,
        ListModel::Double(_) => DOUBLE_ID,
        ListModel::ByteArray(_) => BYTE_ARRAY_ID,
        ListModel::String(_) => STRING_ID,
        ListModel::List(_) => LIST_ID,
        ListModel::Compound(_) => COMPOUND_ID,
        ListModel::IntArray(_) => INT_ARRAY_ID,
        ListModel::LongArray(_) => LONG_ARRAY_ID,
    }
}

pub open spec fn encode_i8s(v: Seq<i8>) -> Seq<u8> {
    Seq::new(v.len(), |i: int| v[i] as u8)
}

pub open spec fn encode_i16s(v: Seq<i16>) -> Seq<u8> {
    Seq::new(v.len() * 2, |j: int| spec_u16_to_be(v[j / 2] as u16)[j % 2])
}

pub open spec fn encode_u32s(v: Seq<u32>) -> Seq<u8> {
    Seq::new(v.len() * 4, |j: int| spec_u32_to_be(v[j / 4])[j % 4])
}

pub open spec fn encode_i32s(v: Seq<i32>) -> Seq<u8> {
    Seq::new(v.len() * 4, |j: int| spec_u32_to_be(v[j / 4] as u32)[j % 4])
}

pub open spec fn encode_u64s(v: Seq<u64>) -> Seq<u8> {
    Seq::new(v.len() * 8, |j: int| spec_u64_to_be(v[j / 8])[j % 8])
}

pub open spec fn encode_i64s(v: Seq<i64>) -> Seq<u8> {
    Seq::new(v.len() * 8, |j: int| spec_u64_to_be(v[j / 8] as u64)[j % 8])
}

/// A byte string with its `u16` length in front.
pub open spec fn ser_string(s: Seq<u8>) -> Seq<u8> {
    spec_u16_to_be(s.len() as u16) + s
}

/// An element count as a `u32`, followed by the element bytes.
pub open spec fn ser_u32_prefixed(count: nat, bytes: Seq<u8>) -> Seq<u8> {
    spec_u32_to_be(count as u32) + bytes
}

/// The concatenation of `f` over the elements of `v`.
pub open spec fn concat_map<A>(v: Seq<A>, f: spec_fn(A) -> Seq<u8>) -> Seq<u8>
    decreases v.len(),
{
    if v.len() == 0 {
        seq![]
    } else {
        f(v[0]) + concat_map(v.drop_first(), f)
    }
}

/// Appending one element appends its image.
pub proof fn lemma_concat_map_take<A>(v: Seq<A>, f: spec_fn(A) -> Seq<u8>, i: int)
    requires
        0 <= i < v.len(),
    ensures
        concat_map(v.take(i + 1), f) == concat_map(v.take(i), f) + f(v[i]),
    decreases i,
{
    if i == 0 {
        let t = v.take(1);
        assert(t.drop_first().len() == 0);
        assert(concat_map(t.drop_first(), f) == Seq::<u8>::empty());
        assert(concat_map(v.take(0), f) == Seq::<u8>::empty());
        assert(t[0] == v[0]);
        assert(concat_map(t, f) =~= f(v[0]));
    } else {
        lemma_concat_map_take(v.drop_first(), f, i - 1);
        assert(v.take(i + 1).drop_first() =~= v.drop_first().take(i));
        assert(v.take(i).drop_first() =~= v.drop_first().take(i - 1));
        assert(concat_map(v.take(i + 1), f) =~= f(v[0]) + concat_map(v.drop_first().take(i), f));
        assert(concat_map(v.take(i), f) =~= f(v[0]) + concat_map(v.drop_first().take(i - 1), f));
    }
}

pub open spec fn ser_byte_array(a: Seq<u8>) -> Seq<u8> {
    ser_u32_prefixed(a.len(), a)
}

pub open spec fn ser_int_array(a: Seq<i32>) -> Seq<u8> {
    ser_u32_prefixed(a.len(), encode_i32s(a))
}

pub open spec fn ser_long_array(a: Seq<i64>) -> Seq<u8> {
    ser_u32_prefixed(a.len(), encode_i64s(a))
}

pub open spec fn ser_byte_arrays(v: Seq<Seq<u8>>) -> Seq<u8> {
    concat_map(v, |a: Seq<u8>| ser_byte_array(a))
}

pub open spec fn ser_strings(v: Seq<Seq<u8>>) -> Seq<u8> {
    concat_map(v, |a: Seq<u8>| ser_string(a))
}

pub open spec fn ser_int_arrays(v: Seq<Seq<i32>>) -> Seq<u8> {
    concat_map(v, |a: Seq<i32>| ser_int_array(a))
}

pub open spec fn ser_long_arrays(v: Seq<Seq<i64>>) -> Seq<u8> {
    concat_map(v, |a: Seq<i64>| ser_long_array(a))
}

/// The bytes of a tag's payload (without its id or name).
pub open spec fn ser_payload(t: TagModel) -> Seq<u8>
    decreases t,
{
    match t {
        TagModel::Byte(v) => seq![v as u8],
        TagModel::Short(v) => spec_u16_to_be(v as u16),
        TagModel::Int(v) => spec_u32_to_be(v as u32),
        TagModel::Long(v) => spec_u64_to_be(v as u64),
        TagModel::Float(v) => spec_u32_to_be(v),
        TagModel::Double(v) => spec_u64_to_be(v),
        TagModel::ByteArray(a) => ser_byte_array(a),
        TagModel::String(a) => ser_string(a),
        TagModel::List(l) => ser_list(l),
        TagModel::Compound(es) => ser_entries(es) + seq![END_ID],
        TagModel::IntArray(a) => ser_int_array(a),
        TagModel::LongArray(a) => ser_long_array(a),
    }
}

/// The bytes of one named tag: its id, its name and its payload.
pub open spec fn ser_entry(e: (Seq<u8>, TagModel)) -> Seq<u8>
    decreases e,
{
    seq![tag_id(e.1)] + ser_string(e.0) + ser_payload(e.1)
}

/// The bytes of named tags: for each, its id, its name and its payload.
pub open spec fn ser_entries(es: Seq<(Seq<u8>, TagModel)>) -> Seq<u8>
    decreases es,
{
    if es.len() == 0 {
        seq![]
    } else {
        ser_entry(es[0]) + ser_entries(es.drop_first())
    }
}

/// The bytes of a list: element id, count, elements.
pub open spec fn ser_list(l: ListModel) -> Seq<u8>
    decreases l,
{
    match l {
        ListModel::Empty => seq![END_ID] + spec_u32_to_be(0),
        ListModel::Byte(v) => seq![BYTE_ID] + ser_u32_prefixed(v.len(), encode_i8s(v)),
        ListModel::Short(v) => seq![SHORT_ID] + ser_u32_prefixed(v.len(), encode_i16s(v)),
        ListModel::Int(v) => seq![INT_ID] + ser_u32_prefixed(v.len(), encode_i32s(v)),
        ListModel::Long(v) => seq![LONG_ID] + ser_u32_prefixed(v.len(), encode_i64s(v)),
        ListModel::Float(v) => seq![FLOAT_ID] + ser_u32_prefixed(v.len(), encode_u32s(v)),
        ListModel::Double(v) => seq![DOUBLE_ID] + ser_u32_prefixed(v.len(), encode_u64s(v)),
        ListModel::ByteArray(v) => seq![BYTE_ARRAY_ID] + ser_u32_prefixed(v.len(), ser_byte_arrays(v)),
        ListModel::String(v) => seq![STRING_ID] + ser_u32_prefixed(v.len(), ser_strings(v)),
        ListModel::List(v) => seq![LIST_ID] + ser_u32_prefixed(v.len(), ser_lists(v)),
        ListModel::Compound(v) => seq![COMPOUND_ID] + ser_u32_prefixed(v.len(), ser_compounds(v)),
        ListModel::IntArray(v) => seq![INT_ARRAY_ID] + ser_u32_prefixed(v.len(), ser_int_arrays(v)),
        ListModel::LongArray(v) => seq![LONG_ARRAY_ID] + ser_u32_prefixed(v.len(), ser_long_arrays(v)),
    }
}

pub open spec fn ser_lists(v: Seq<ListModel>) -> Seq<u8>
    decreases v,
{
    if v.len() == 0 {
        seq![]
    } else {
        ser_list(v[0]) + ser_lists(v.drop_first())
    }
}

pub open spec fn ser_compounds(v: Seq<Seq<(Seq<u8>, TagModel)>>) -> Seq<u8>
    decreases v,
{
    if v.len() == 0 {
        seq![]
    } else {
        ser_entries(v[0]) + seq![END_ID] + ser_compounds(v.drop_first())
    }
}

pub open spec fn ser_compound(es: Seq<(Seq<u8>, TagModel)>) -> Seq<u8> {
    ser_entries(es) + seq![END_ID]
}

/// The bytes of a root: the compound tag id, the name and the compound.
pub open spec fn ser_root(name: Seq<u8>, es: Seq<(Seq<u8>, TagModel)>) -> Seq<u8> {
    seq![COMPOUND_ID] + ser_string(name) + ser_compound(es)
}

pub proof fn lemma_ser_entries_concat(es: Seq<(Seq<u8>, TagModel)>)
    ensures
        ser_entries(es) == concat_map(es, |e: (Seq<u8>, TagModel)| ser_entry(e)),
    decreases es.len(),
{
    if es.len() > 0 {
        lemma_ser_entries_concat(es.drop_first());
    }
}

pub proof fn lemma_ser_lists_concat(v: Seq<ListModel>)
    ensures
        ser_lists(v) == concat_map(v, |l: ListModel| ser_list(l)),
    decreases v.len(),
{
    if v.len() > 0 {
        lemma_ser_lists_concat(v.drop_first());
    }
}

pub proof fn lemma_ser_compounds_concat(v: Seq<Seq<(Seq<u8>, TagModel)>>)
    ensures
        ser_compounds(v) == concat_map(v, |c: Seq<(Seq<u8>, TagModel)>| ser_compound(c)),
    decreases v.len(),
{
    if v.len() > 0 {
        lemma_ser_compounds_concat(v.drop_first());
        assert(ser_compounds(v) =~= ser_compound(v[0]) + ser_compounds(v.drop_first()));
    }
}

pub proof fn lemma_ser_entries_take(es: Seq<(Seq<u8>, TagModel)>, i: int)
    requires
        0 <= i < es.len(),
    ensures
        ser_entries(es.take(i + 1)) == ser_entries(es.take(i)) + ser_entry(es[i]),
{
    lemma_ser_entries_concat(es.take(i + 1));
    lemma_ser_entries_concat(es.take(i));
    lemma_concat_map_take(es, |e: (Seq<u8>, TagModel)| ser_entry(e), i);
}

pub proof fn lemma_ser_lists_take(v: Seq<ListModel>, i: int)
    requires
        0 <= i < v.len(),
    ensures
        ser_lists(v.take(i + 1)) == ser_lists(v.take(i)) + ser_list(v[i]),
{
    lemma_ser_lists_concat(v.take(i + 1));
    lemma_ser_lists_concat(v.take(i));
    lemma_concat_map_take(v, |l: ListModel| ser_list(l), i);
}

pub proof fn lemma_ser_compounds_take(v: Seq<Seq<(Seq<u8>, TagModel)>>, i: int)
    requires
        0 <= i < v.len(),
    ensures
        ser_compounds(v.take(i + 1)) == ser_compounds(v.take(i)) + ser_compound(v[i]),
{
    lemma_ser_compounds_concat(v.take(i + 1));
    lemma_ser_compounds_concat(v.take(i));
    lemma_concat_map_take(v, |c: Seq<(Seq<u8>, TagModel)>| ser_compound(c), i);
}

} // verus!
