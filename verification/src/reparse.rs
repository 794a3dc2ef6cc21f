//! Whatever was read can be written back and read again.
//!
//! Every tag that parsing produces is well-formed: its lengths came from
//! length prefixes and its nesting was checked while reading. So writing it
//! and reading the bytes again gives the same tag.

use vstd::prelude::*;

use crate::common::{
    spec_u32_be, BYTE_ARRAY_ID, COMPOUND_ID, END_ID, INT_ARRAY_ID, LIST_ID, LONG_ARRAY_ID,
    MAX_DEPTH, STRING_ID,
};
use crate::error::Error;
use crate::model::{
    decode_i32s, decode_i64s, lemma_compounds_count, lemma_entries_bounds, lemma_list_bounds,
    lemma_lists_count, parse_compounds, parse_entries, parse_list, parse_lists, parse_payload,
    parse_root, parse_string, parse_string_seq, parse_u32_prefixed, parse_u32_prefixed_seq,
    ser_compound, ser_list, ser_payload, ser_root, ListModel, TagModel,
};
use crate::roundtrip::{
    arrays_fit, lemma_rt_entries, lemma_rt_list, lemma_rt_payload, lemma_rt_root, strings_fit,
    wf_compounds, wf_entries, wf_list, wf_lists, wf_tag,
};

verus! {

/// The arrays of `n` prefixed arrays are `n`, each of at most `u32::MAX`
/// elements of `width` bytes.
proof fn lemma_parsed_u32_prefixed_seq(s: Seq<u8>, n: nat, width: nat)
    requires
        width > 0,
    ensures
        parse_u32_prefixed_seq(s, n, width) matches Ok((v, _)) ==> {
            &&& v.len() == n
            &&& forall|i: int| 0 <= i < v.len() ==> #[trigger] v[i].len() == (v[i].len() / width) * width
                && v[i].len() / width <= u32::MAX
        },
    decreases n,
{
    if n > 0 {
        if let Ok((a, k)) = parse_u32_prefixed(s, width) {
            let rest = s.subrange(k, s.len() as int);
            lemma_parsed_u32_prefixed_seq(rest, (n - 1) as nat, width);
            if let Ok((tail, k2)) = parse_u32_prefixed_seq(rest, (n - 1) as nat, width) {
                let v = seq![a] + tail;
                let c = spec_u32_be(s) as nat;
                assert((c * width) / width == c) by (nonlinear_arith)
                    requires
                        width > 0,
                ;
                assert(a.len() == c * width);
                assert forall|i: int| 0 <= i < v.len() implies #[trigger] v[i].len() == (v[i].len()
                    / width) * width && v[i].len() / width <= u32::MAX by {
                    if i > 0 {
                        assert(v[i] == tail[i - 1]);
                    } else {
                        assert(v[i] == a);
                    }
                }
            }
        }
    }
}

/// The strings of a list of `n` strings are `n`, each fitting a `u16` length.
proof fn lemma_parsed_string_seq(s: Seq<u8>, n: nat)
    ensures
        parse_string_seq(s, n) matches Ok((v, _)) ==> v.len() == n && strings_fit(v),
    decreases n,
{
    if n > 0 {
        if let Ok((a, k)) = parse_string(s) {
            let rest = s.subrange(k, s.len() as int);
            lemma_parsed_string_seq(rest, (n - 1) as nat);
            if let Ok((tail, k2)) = parse_string_seq(rest, (n - 1) as nat) {
                let v = seq![a] + tail;
                assert forall|i: int| 0 <= i < v.len() implies #[trigger] v[i].len() <= u16::MAX by {
                    if i > 0 {
                        assert(v[i] == tail[i - 1]);
                    }
                }
            }
        }
    }
}

/// A payload that parses is well-formed.
pub proof fn lemma_parsed_payload(s: Seq<u8>, d: int, t: u8)
    requires
        parse_payload(s, d, t) is Ok,
    ensures
        wf_tag(parse_payload(s, d, t)->Ok_0.0, d),
    decreases s.len(), 1nat, 0nat,
{
    if t == LIST_ID {
        lemma_parsed_list(s, d);
    } else if t == COMPOUND_ID {
        lemma_parsed_entries(s, d + 1);
    }
}

/// The named tags of a compound that parses are well-formed.
pub proof fn lemma_parsed_entries(s: Seq<u8>, d: int)
    requires
        parse_entries(s, d) is Ok,
    ensures
        wf_entries(parse_entries(s, d)->Ok_0.0, d),
    decreases s.len(), 0nat, 0nat,
{
    if s[0] != END_ID {
        let (name, k1) = parse_string(s.subrange(1, s.len() as int))->Ok_0;
        let s1 = s.subrange(1 + k1, s.len() as int);
        let (tag, k2) = parse_payload(s1, d, s[0])->Ok_0;
        lemma_parsed_payload(s1, d, s[0]);
        let s2 = s1.subrange(k2, s1.len() as int);
        lemma_parsed_entries(s2, d);
        let es = parse_entries(s, d)->Ok_0.0;
        let rest = parse_entries(s2, d)->Ok_0.0;
        assert(es.drop_first() =~= rest);
    }
}

/// A list that parses is well-formed.
pub proof fn lemma_parsed_list(s: Seq<u8>, d: int)
    requires
        parse_list(s, d) is Ok,
    ensures
        wf_list(parse_list(s, d)->Ok_0.0, d),
    decreases s.len(), 0nat, 0nat,
{
    let t = s[0];
    let s1 = s.subrange(1, s.len() as int);
    if t == BYTE_ARRAY_ID || t == STRING_ID || t == LIST_ID || t == COMPOUND_ID || t
        == INT_ARRAY_ID || t == LONG_ARRAY_ID {
        let n = spec_u32_be(s1) as nat;
        let s2 = s1.subrange(4, s1.len() as int);
        if t == BYTE_ARRAY_ID {
            lemma_parsed_u32_prefixed_seq(s2, n, 1);
        } else if t == STRING_ID {
            lemma_parsed_string_seq(s2, n);
        } else if t == LIST_ID {
            lemma_parsed_lists(s2, d + 1, n);
            lemma_lists_count(s2, d + 1, n);
        } else if t == COMPOUND_ID {
            lemma_parsed_compounds(s2, d + 1, n);
            lemma_compounds_count(s2, d + 1, n);
        } else if t == INT_ARRAY_ID {
            lemma_parsed_u32_prefixed_seq(s2, n, 4);
            let a = parse_u32_prefixed_seq(s2, n, 4)->Ok_0.0;
            let v = a.map_values(|x: Seq<u8>| decode_i32s(x));
            assert forall|i: int| 0 <= i < v.len() implies #[trigger] v[i].len() <= u32::MAX by {
                assert(v[i] == decode_i32s(a[i]));
            }
        } else {
            lemma_parsed_u32_prefixed_seq(s2, n, 8);
            let a = parse_u32_prefixed_seq(s2, n, 8)->Ok_0.0;
            let v = a.map_values(|x: Seq<u8>| decode_i64s(x));
            assert forall|i: int| 0 <= i < v.len() implies #[trigger] v[i].len() <= u32::MAX by {
                assert(v[i] == decode_i64s(a[i]));
            }
        }
    }
}

/// The lists of a list of lists that parses are well-formed.
pub proof fn lemma_parsed_lists(s: Seq<u8>, d: int, n: nat)
    requires
        parse_lists(s, d, n) is Ok,
    ensures
        wf_lists(parse_lists(s, d, n)->Ok_0.0, d),
    decreases s.len(), 1nat, n,
{
    if n > 0 {
        let (l, k) = parse_list(s, d)->Ok_0;
        lemma_parsed_list(s, d);
        lemma_list_bounds(s, d);
        let s1 = s.subrange(k, s.len() as int);
        lemma_parsed_lists(s1, d, (n - 1) as nat);
        let v = parse_lists(s, d, n)->Ok_0.0;
        assert(v.drop_first() =~= parse_lists(s1, d, (n - 1) as nat)->Ok_0.0);
    }
}

/// The compounds of a list of compounds that parses are well-formed.
pub proof fn lemma_parsed_compounds(s: Seq<u8>, d: int, n: nat)
    requires
        parse_compounds(s, d, n) is Ok,
    ensures
        wf_compounds(parse_compounds(s, d, n)->Ok_0.0, d),
    decreases s.len(), 1nat, n,
{
    if n > 0 {
        let (c, k) = parse_entries(s, d + 1)->Ok_0;
        lemma_parsed_entries(s, d + 1);
        lemma_entries_bounds(s, d + 1);
        let s1 = s.subrange(k, s.len() as int);
        lemma_parsed_compounds(s1, d, (n - 1) as nat);
        let v = parse_compounds(s, d, n)->Ok_0.0;
        assert(v.drop_first() =~= parse_compounds(s1, d, (n - 1) as nat)->Ok_0.0);
    }
}

/// Reading a tag's payload, writing the tag and reading that again gives
/// the same tag, and the second read takes exactly the written bytes.
pub proof fn lemma_reparse_payload(s: Seq<u8>, d: int, t: u8, rest: Seq<u8>)
    requires
        parse_payload(s, d, t) is Ok,
    ensures
        ({
            let tag = parse_payload(s, d, t)->Ok_0.0;
            parse_payload(ser_payload(tag) + rest, d, t) == Ok::<(TagModel, int), Error>(
                (tag, ser_payload(tag).len() as int),
            )
        }),
{
    let tag = parse_payload(s, d, t)->Ok_0.0;
    lemma_parsed_payload(s, d, t);
    lemma_payload_type(s, d, t);
    lemma_rt_payload(tag, d, rest);
}

/// A payload read as type `t` is a tag of type `t`.
proof fn lemma_payload_type(s: Seq<u8>, d: int, t: u8)
    requires
        parse_payload(s, d, t) is Ok,
    ensures
        crate::model::tag_id(parse_payload(s, d, t)->Ok_0.0) == t,
{
}

/// Reading a compound's named tags, writing them and reading that again
/// gives the same tags.
pub proof fn lemma_reparse_entries(s: Seq<u8>, d: int, rest: Seq<u8>)
    requires
        parse_entries(s, d) is Ok,
    ensures
        ({
            let es = parse_entries(s, d)->Ok_0.0;
            parse_entries(ser_compound(es) + rest, d) == Ok::<(Seq<(Seq<u8>, TagModel)>, int), Error>(
                (es, ser_compound(es).len() as int),
            )
        }),
{
    let es = parse_entries(s, d)->Ok_0.0;
    lemma_parsed_entries(s, d);
    lemma_rt_entries(es, d, rest);
}

/// Reading a list, writing it and reading that again gives the same list.
pub proof fn lemma_reparse_list(s: Seq<u8>, d: int, rest: Seq<u8>)
    requires
        parse_list(s, d) is Ok,
    ensures
        ({
            let l = parse_list(s, d)->Ok_0.0;
            parse_list(ser_list(l) + rest, d) == Ok::<(ListModel, int), Error>(
                (l, ser_list(l).len() as int),
            )
        }),
{
    lemma_parsed_list(s, d);
    lemma_rt_list(parse_list(s, d)->Ok_0.0, d, rest);
}

/// Reading NBT, writing what was read and reading that again gives the same
/// NBT, and the second read takes exactly the written bytes.
pub proof fn lemma_reparse_root(s: Seq<u8>, rest: Seq<u8>)
    requires
        parse_root(s) matches Ok((Some(_), _)),
    ensures
        ({
            let (name, es) = parse_root(s)->Ok_0.0->Some_0;
            parse_root(ser_root(name, es) + rest) == Ok::<(Option<(Seq<u8>, Seq<(Seq<u8>, TagModel)>)>, int), Error>(
                (Some((name, es)), ser_root(name, es).len() as int),
            )
        }),
{
    let (name, es) = parse_root(s)->Ok_0.0->Some_0;
    let (_, k1) = parse_string(s.subrange(1, s.len() as int))->Ok_0;
    lemma_parsed_entries(s.subrange(1 + k1, s.len() as int), 1);
    lemma_rt_root(name, es, rest);
}

} // verus!
