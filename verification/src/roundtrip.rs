//! Reading what was written gives it back.
//!
//! A tag can be written whenever every length fits its length prefix and its
//! containers nest less deeply than the reader accepts; such tags are
//! well-formed. Parsing the bytes of a well-formed tag, followed by anything,
//! gives the tag back and consumes exactly its bytes.

use vstd::prelude::*;

use crate::common::{
    lemma_u16_be_roundtrip, lemma_u32_be_roundtrip, lemma_u64_be_roundtrip, spec_u16_be,
    spec_u16_to_be, spec_u32_be, spec_u32_to_be, spec_u64_be, spec_u64_to_be, BYTE_ARRAY_ID,
    BYTE_ID, COMPOUND_ID, DOUBLE_ID, END_ID, FLOAT_ID, INT_ARRAY_ID, INT_ID, LIST_ID,
    LONG_ARRAY_ID, LONG_ID, MAX_DEPTH, SHORT_ID, STRING_ID,
};
use crate::error::Error;
use crate::model::{
    decode_i16s, decode_i32s, decode_i64s, decode_i8s, decode_u32s, decode_u64s, encode_i16s,
    encode_i32s, encode_i64s, encode_i8s, encode_u32s, encode_u64s, parse_compounds,
    parse_entries, parse_list, parse_root, parse_optional_tag, parse_tag, parse_unnamed_root, ser_root, parse_lists, parse_payload, parse_string, parse_string_seq,
    parse_u32_prefixed, parse_u32_prefixed_seq, ser_byte_array, ser_byte_arrays, ser_compound,
    ser_compounds, ser_entries, ser_entry, ser_int_array, ser_int_arrays, ser_list, ser_lists,
    ser_long_array, ser_long_arrays, ser_payload, ser_string, ser_strings, ser_u32_prefixed,
    list_id, tag_id, ListModel, TagModel,
};

verus! {

// ---------------------------------------------------------------------------
// Well-formed models

/// Every array's length fits in a `u32`.
pub open spec fn arrays_fit<A>(v: Seq<Seq<A>>) -> bool {
    forall|i: int| 0 <= i < v.len() ==> #[trigger] v[i].len() <= u32::MAX
}

/// Every string's length fits in a `u16`.
pub open spec fn strings_fit(v: Seq<Seq<u8>>) -> bool {
    forall|i: int| 0 <= i < v.len() ==> #[trigger] v[i].len() <= u16::MAX
}

/// A tag inside a container at depth `d` can be written and read back.
pub open spec fn wf_tag(t: TagModel, d: int) -> bool
    decreases t,
{
    match t {
        TagModel::ByteArray(a) => a.len() <= u32::MAX,
        TagModel::String(a) => a.len() <= u16::MAX,
        TagModel::List(l) => wf_list(l, d),
        TagModel::Compound(es) => d + 1 < MAX_DEPTH && wf_entries(es, d + 1),
        TagModel::IntArray(a) => a.len() <= u32::MAX,
        TagModel::LongArray(a) => a.len() <= u32::MAX,
        _ => true,
    }
}

/// The named tags of a compound at depth `d` can be written and read back.
pub open spec fn wf_entries(es: Seq<(Seq<u8>, TagModel)>, d: int) -> bool
    decreases es,
{
    if es.len() == 0 {
        true
    } else {
        &&& es[0].0.len() <= u16::MAX
        &&& wf_tag(es[0].1, d)
        &&& wf_entries(es.drop_first(), d)
    }
}

/// A list inside a container at depth `d` can be written and read back.
pub open spec fn wf_list(l: ListModel, d: int) -> bool
    decreases l,
{
    match l {
        ListModel::Empty => true,
        ListModel::Byte(v) => v.len() <= u32::MAX,
        ListModel::Short(v) => v.len() <= u32::MAX,
        ListModel::Int(v) => v.len() <= u32::MAX,
        ListModel::Long(v) => v.len() <= u32::MAX,
        ListModel::Float(v) => v.len() <= u32::MAX,
        ListModel::Double(v) => v.len() <= u32::MAX,
        ListModel::ByteArray(v) => v.len() <= u32::MAX && arrays_fit(v),
        ListModel::String(v) => v.len() <= u32::MAX && strings_fit(v),
        ListModel::List(v) => v.len() <= u32::MAX && d + 1 < MAX_DEPTH && wf_lists(v, d + 1),
        ListModel::Compound(v) => v.len() <= u32::MAX && d + 1 < MAX_DEPTH && wf_compounds(v, d + 1),
        ListModel::IntArray(v) => v.len() <= u32::MAX && arrays_fit(v),
        ListModel::LongArray(v) => v.len() <= u32::MAX && arrays_fit(v),
    }
}

/// The lists of a list of lists at depth `d` can be written and read back.
pub open spec fn wf_lists(v: Seq<ListModel>, d: int) -> bool
    decreases v,
{
    if v.len() == 0 {
        true
    } else {
        wf_list(v[0], d) && wf_lists(v.drop_first(), d)
    }
}

/// The compounds of a list of compounds at depth `d` can be written and read
/// back.
pub open spec fn wf_compounds(v: Seq<Seq<(Seq<u8>, TagModel)>>, d: int) -> bool
    decreases v,
{
    if v.len() == 0 {
        true
    } else {
        d + 1 < MAX_DEPTH && wf_entries(v[0], d + 1) && wf_compounds(v.drop_first(), d)
    }
}

// ---------------------------------------------------------------------------
// Numbers

/// Reinterpreting unsigned bits as signed and back gives them back.
pub proof fn lemma_casts_back(a: u8, b: u16, c: u32, e: u64)
    ensures
        (a as i8) as u8 == a,
        (b as i16) as u16 == b,
        (c as i32) as u32 == c,
        (e as i64) as u64 == e,
{
    assert((a as i8) as u8 == a) by (bit_vector);
    assert((b as i16) as u16 == b) by (bit_vector);
    assert((c as i32) as u32 == c) by (bit_vector);
    assert((e as i64) as u64 == e) by (bit_vector);
}

pub proof fn lemma_casts(a: i8, b: i16, c: i32, e: i64)
    ensures
        (a as u8) as i8 == a,
        (b as u16) as i16 == b,
        (c as u32) as i32 == c,
        (e as u64) as i64 == e,
{
    assert((a as u8) as i8 == a) by (bit_vector);
    assert((b as u16) as i16 == b) by (bit_vector);
    assert((c as u32) as i32 == c) by (bit_vector);
    assert((e as u64) as i64 == e) by (bit_vector);
}

proof fn lemma_group_index(i: int, k: int, w: int)
    requires
        w > 0,
        0 <= k < w,
    ensures
        (i * w + k) / w == i,
        (i * w + k) % w == k,
{
    vstd::arithmetic::div_mod::lemma_fundamental_div_mod_converse(i * w + k, w, i, k);
}

pub proof fn lemma_decode_encode_i8s(v: Seq<i8>)
    ensures
        decode_i8s(encode_i8s(v)) == v,
{
    assert forall|i: int| 0 <= i < v.len() implies decode_i8s(encode_i8s(v))[i] == v[i] by {
        lemma_casts(v[i], 0, 0, 0);
    }
    assert(decode_i8s(encode_i8s(v)) =~= v);
}

pub proof fn lemma_decode_encode_i16s(v: Seq<i16>)
    ensures
        decode_i16s(encode_i16s(v)) == v,
{
    let s = encode_i16s(v);
    assert forall|i: int| 0 <= i < v.len() implies decode_i16s(s)[i] == v[i] by {
        let x = v[i] as u16;
        lemma_u16_be_roundtrip(x);
        lemma_casts(0, v[i], 0, 0);
        assert(s.subrange(2 * i, 2 * i + 2) =~= spec_u16_to_be(x));
    }
    assert(decode_i16s(s) =~= v);
}

pub proof fn lemma_decode_encode_i32s(v: Seq<i32>)
    ensures
        decode_i32s(encode_i32s(v)) == v,
{
    let s = encode_i32s(v);
    assert forall|i: int| 0 <= i < v.len() implies decode_i32s(s)[i] == v[i] by {
        let x = v[i] as u32;
        lemma_u32_be_roundtrip(x);
        lemma_casts(0, 0, v[i], 0);
        assert forall|k: int| 0 <= k < 4 implies #[trigger] s.subrange(4 * i, 4 * i + 4)[k] == spec_u32_to_be(x)[k] by {
            lemma_group_index(i, k, 4);
        }
        assert(s.subrange(4 * i, 4 * i + 4) =~= spec_u32_to_be(x));
    }
    assert(decode_i32s(s) =~= v);
}

pub proof fn lemma_decode_encode_u32s(v: Seq<u32>)
    ensures
        decode_u32s(encode_u32s(v)) == v,
{
    let s = encode_u32s(v);
    assert forall|i: int| 0 <= i < v.len() implies decode_u32s(s)[i] == v[i] by {
        lemma_u32_be_roundtrip(v[i]);
        assert forall|k: int| 0 <= k < 4 implies #[trigger] s.subrange(4 * i, 4 * i + 4)[k] == spec_u32_to_be(v[i])[k] by {
            lemma_group_index(i, k, 4);
        }
        assert(s.subrange(4 * i, 4 * i + 4) =~= spec_u32_to_be(v[i]));
    }
    assert(decode_u32s(s) =~= v);
}

pub proof fn lemma_decode_encode_i64s(v: Seq<i64>)
    ensures
        decode_i64s(encode_i64s(v)) == v,
{
    let s = encode_i64s(v);
    assert forall|i: int| 0 <= i < v.len() implies decode_i64s(s)[i] == v[i] by {
        let x = v[i] as u64;
        lemma_u64_be_roundtrip(x);
        lemma_casts(0, 0, 0, v[i]);
        assert forall|k: int| 0 <= k < 8 implies #[trigger] s.subrange(8 * i, 8 * i + 8)[k] == spec_u64_to_be(x)[k] by {
            lemma_group_index(i, k, 8);
        }
        assert(s.subrange(8 * i, 8 * i + 8) =~= spec_u64_to_be(x));
    }
    assert(decode_i64s(s) =~= v);
}

pub proof fn lemma_decode_encode_u64s(v: Seq<u64>)
    ensures
        decode_u64s(encode_u64s(v)) == v,
{
    let s = encode_u64s(v);
    assert forall|i: int| 0 <= i < v.len() implies decode_u64s(s)[i] == v[i] by {
        lemma_u64_be_roundtrip(v[i]);
        assert forall|k: int| 0 <= k < 8 implies #[trigger] s.subrange(8 * i, 8 * i + 8)[k] == spec_u64_to_be(v[i])[k] by {
            lemma_group_index(i, k, 8);
        }
        assert(s.subrange(8 * i, 8 * i + 8) =~= spec_u64_to_be(v[i]));
    }
    assert(decode_u64s(s) =~= v);
}

// ---------------------------------------------------------------------------
// Fixed-size prefixes

proof fn lemma_u16_prefix(x: u16, rest: Seq<u8>)
    ensures
        spec_u16_be(spec_u16_to_be(x) + rest) == x,
        (spec_u16_to_be(x) + rest).len() == 2 + rest.len(),
{
    lemma_u16_be_roundtrip(x);
    let s = spec_u16_to_be(x) + rest;
    assert(s[0] == spec_u16_to_be(x)[0] && s[1] == spec_u16_to_be(x)[1]);
}

proof fn lemma_u32_prefix(x: u32, rest: Seq<u8>)
    ensures
        spec_u32_be(spec_u32_to_be(x) + rest) == x,
        (spec_u32_to_be(x) + rest).len() == 4 + rest.len(),
{
    lemma_u32_be_roundtrip(x);
    let s = spec_u32_to_be(x) + rest;
    let t = spec_u32_to_be(x);
    assert(s[0] == t[0] && s[1] == t[1] && s[2] == t[2] && s[3] == t[3]);
}

proof fn lemma_u64_prefix(x: u64, rest: Seq<u8>)
    ensures
        spec_u64_be(spec_u64_to_be(x) + rest) == x,
        (spec_u64_to_be(x) + rest).len() == 8 + rest.len(),
{
    lemma_u64_be_roundtrip(x);
    let s = spec_u64_to_be(x) + rest;
    let t = spec_u64_to_be(x);
    assert(s[0] == t[0] && s[1] == t[1] && s[2] == t[2] && s[3] == t[3]);
    assert(s.subrange(4, 8) =~= t.subrange(4, 8));
}

/// A string written with its length reads back.
pub proof fn lemma_rt_string(a: Seq<u8>, rest: Seq<u8>)
    requires
        a.len() <= u16::MAX,
    ensures
        ser_string(a).len() == 2 + a.len(),
        parse_string(ser_string(a) + rest) == Ok::<(Seq<u8>, int), Error>((a, ser_string(a).len() as int)),
{
    lemma_u16_prefix(a.len() as u16, a + rest);
    assert(ser_string(a) + rest =~= spec_u16_to_be(a.len() as u16) + (a + rest));
    assert((ser_string(a) + rest).subrange(2, 2 + a.len() as int) =~= a);
}

/// An array written with its element count reads back.
pub proof fn lemma_rt_u32_prefixed(count: nat, bytes: Seq<u8>, width: nat, rest: Seq<u8>)
    requires
        count <= u32::MAX,
        bytes.len() == count * width,
    ensures
        ser_u32_prefixed(count, bytes).len() == 4 + bytes.len(),
        parse_u32_prefixed(ser_u32_prefixed(count, bytes) + rest, width) == Ok::<(Seq<u8>, int), Error>(
            (bytes, 4 + bytes.len() as int),
        ),
{
    lemma_u32_prefix(count as u32, bytes + rest);
    assert(ser_u32_prefixed(count, bytes) + rest =~= spec_u32_to_be(count as u32) + (bytes + rest));
    assert((ser_u32_prefixed(count, bytes) + rest).subrange(4, 4 + bytes.len() as int) =~= bytes);
}

// ---------------------------------------------------------------------------
// Runs of arrays and strings

pub proof fn lemma_rt_byte_arrays(v: Seq<Seq<u8>>, rest: Seq<u8>)
    requires
        arrays_fit(v),
    ensures
        parse_u32_prefixed_seq(ser_byte_arrays(v) + rest, v.len(), 1) == Ok::<(Seq<Seq<u8>>, int), Error>(
            (v, ser_byte_arrays(v).len() as int),
        ),
    decreases v.len(),
{
    if v.len() > 0 {
        let t = v.drop_first();
        assert(arrays_fit(t)) by {
            assert forall|i: int| 0 <= i < t.len() implies #[trigger] t[i].len() <= u32::MAX by {
                assert(t[i] == v[i + 1]);
            }
        }
        assert(v[0].len() <= u32::MAX);
        lemma_rt_byte_arrays(t, rest);
        let a = ser_byte_array(v[0]);
        assert(ser_byte_arrays(v) == a + ser_byte_arrays(t));
        lemma_rt_u32_prefixed(v[0].len(), v[0], 1, ser_byte_arrays(t) + rest);
        assert(ser_byte_arrays(v) + rest =~= a + (ser_byte_arrays(t) + rest));
        assert((ser_byte_arrays(v) + rest).subrange(a.len() as int, (ser_byte_arrays(v) + rest).len() as int)
            =~= ser_byte_arrays(t) + rest);
        assert(seq![v[0]] + t =~= v);
    } else {
        assert(ser_byte_arrays(v) == Seq::<u8>::empty());
        assert(v =~= Seq::<Seq<u8>>::empty());
    }
}

pub proof fn lemma_rt_strings(v: Seq<Seq<u8>>, rest: Seq<u8>)
    requires
        strings_fit(v),
    ensures
        parse_string_seq(ser_strings(v) + rest, v.len()) == Ok::<(Seq<Seq<u8>>, int), Error>(
            (v, ser_strings(v).len() as int),
        ),
    decreases v.len(),
{
    if v.len() > 0 {
        let t = v.drop_first();
        assert(strings_fit(t)) by {
            assert forall|i: int| 0 <= i < t.len() implies #[trigger] t[i].len() <= u16::MAX by {
                assert(t[i] == v[i + 1]);
            }
        }
        assert(v[0].len() <= u16::MAX);
        lemma_rt_strings(t, rest);
        let a = ser_string(v[0]);
        assert(ser_strings(v) == a + ser_strings(t));
        lemma_rt_string(v[0], ser_strings(t) + rest);
        assert(ser_strings(v) + rest =~= a + (ser_strings(t) + rest));
        assert((ser_strings(v) + rest).subrange(a.len() as int, (ser_strings(v) + rest).len() as int)
            =~= ser_strings(t) + rest);
        assert(seq![v[0]] + t =~= v);
    } else {
        assert(ser_strings(v) == Seq::<u8>::empty());
        assert(v =~= Seq::<Seq<u8>>::empty());
    }
}

pub proof fn lemma_rt_int_arrays(v: Seq<Seq<i32>>, rest: Seq<u8>)
    requires
        arrays_fit(v),
    ensures
        parse_u32_prefixed_seq(ser_int_arrays(v) + rest, v.len(), 4) == Ok::<(Seq<Seq<u8>>, int), Error>(
            (v.map_values(|a: Seq<i32>| encode_i32s(a)), ser_int_arrays(v).len() as int),
        ),
    decreases v.len(),
{
    if v.len() > 0 {
        let t = v.drop_first();
        assert(arrays_fit(t)) by {
            assert forall|i: int| 0 <= i < t.len() implies #[trigger] t[i].len() <= u32::MAX by {
                assert(t[i] == v[i + 1]);
            }
        }
        assert(v[0].len() <= u32::MAX);
        lemma_rt_int_arrays(t, rest);
        let a = ser_int_array(v[0]);
        assert(ser_int_arrays(v) == a + ser_int_arrays(t));
        lemma_rt_u32_prefixed(v[0].len(), encode_i32s(v[0]), 4, ser_int_arrays(t) + rest);
        assert(ser_int_arrays(v) + rest =~= a + (ser_int_arrays(t) + rest));
        assert((ser_int_arrays(v) + rest).subrange(a.len() as int, (ser_int_arrays(v) + rest).len() as int)
            =~= ser_int_arrays(t) + rest);
        assert(seq![encode_i32s(v[0])] + t.map_values(|a: Seq<i32>| encode_i32s(a))
            =~= v.map_values(|a: Seq<i32>| encode_i32s(a)));
    } else {
        assert(ser_int_arrays(v) == Seq::<u8>::empty());
        assert(v.map_values(|a: Seq<i32>| encode_i32s(a)) =~= Seq::<Seq<u8>>::empty());
    }
}

pub proof fn lemma_rt_long_arrays(v: Seq<Seq<i64>>, rest: Seq<u8>)
    requires
        arrays_fit(v),
    ensures
        parse_u32_prefixed_seq(ser_long_arrays(v) + rest, v.len(), 8) == Ok::<(Seq<Seq<u8>>, int), Error>(
            (v.map_values(|a: Seq<i64>| encode_i64s(a)), ser_long_arrays(v).len() as int),
        ),
    decreases v.len(),
{
    if v.len() > 0 {
        let t = v.drop_first();
        assert(arrays_fit(t)) by {
            assert forall|i: int| 0 <= i < t.len() implies #[trigger] t[i].len() <= u32::MAX by {
                assert(t[i] == v[i + 1]);
            }
        }
        assert(v[0].len() <= u32::MAX);
        lemma_rt_long_arrays(t, rest);
        let a = ser_long_array(v[0]);
        assert(ser_long_arrays(v) == a + ser_long_arrays(t));
        lemma_rt_u32_prefixed(v[0].len(), encode_i64s(v[0]), 8, ser_long_arrays(t) + rest);
        assert(ser_long_arrays(v) + rest =~= a + (ser_long_arrays(t) + rest));
        assert((ser_long_arrays(v) + rest).subrange(a.len() as int, (ser_long_arrays(v) + rest).len() as int)
            =~= ser_long_arrays(t) + rest);
        assert(seq![encode_i64s(v[0])] + t.map_values(|a: Seq<i64>| encode_i64s(a))
            =~= v.map_values(|a: Seq<i64>| encode_i64s(a)));
    } else {
        assert(ser_long_arrays(v) == Seq::<u8>::empty());
        assert(v.map_values(|a: Seq<i64>| encode_i64s(a)) =~= Seq::<Seq<u8>>::empty());
    }
}

// ---------------------------------------------------------------------------
// Tags

pub(crate) proof fn lemma_tag_id_not_end(t: TagModel)
    ensures
        tag_id(t) != END_ID,
{
}

/// Parsing the payload of a well-formed tag, followed by anything, gives
/// the tag and its length.
pub proof fn lemma_rt_payload(t: TagModel, d: int, rest: Seq<u8>)
    requires
        wf_tag(t, d),
    ensures
        parse_payload(ser_payload(t) + rest, d, tag_id(t)) == Ok::<(TagModel, int), Error>(
            (t, ser_payload(t).len() as int),
        ),
    decreases t,
{
    let s = ser_payload(t) + rest;
    match t {
        TagModel::Byte(v) => {
            lemma_casts(v, 0, 0, 0);
            assert(s[0] == v as u8);
        },
        TagModel::Short(v) => {
            lemma_u16_prefix(v as u16, rest);
            lemma_casts(0, v, 0, 0);
        },
        TagModel::Int(v) => {
            lemma_u32_prefix(v as u32, rest);
            lemma_casts(0, 0, v, 0);
        },
        TagModel::Long(v) => {
            lemma_u64_prefix(v as u64, rest);
            lemma_casts(0, 0, 0, v);
        },
        TagModel::Float(v) => {
            lemma_u32_prefix(v, rest);
        },
        TagModel::Double(v) => {
            lemma_u64_prefix(v, rest);
        },
        TagModel::ByteArray(a) => {
            lemma_rt_u32_prefixed(a.len(), a, 1, rest);
        },
        TagModel::String(a) => {
            lemma_rt_string(a, rest);
        },
        TagModel::List(l) => {
            lemma_rt_list(l, d, rest);
        },
        TagModel::Compound(es) => {
            lemma_rt_entries(es, d + 1, rest);
        },
        TagModel::IntArray(a) => {
            lemma_rt_u32_prefixed(a.len(), encode_i32s(a), 4, rest);
            lemma_decode_encode_i32s(a);
        },
        TagModel::LongArray(a) => {
            lemma_rt_u32_prefixed(a.len(), encode_i64s(a), 8, rest);
            lemma_decode_encode_i64s(a);
        },
    }
}

/// Parsing the named tags of a well-formed compound and its end tag,
/// followed by anything, gives the named tags and their length.
#[verifier::rlimit(50)]
#[verifier::spinoff_prover]
pub proof fn lemma_rt_entries(es: Seq<(Seq<u8>, TagModel)>, d: int, rest: Seq<u8>)
    requires
        wf_entries(es, d),
    ensures
        parse_entries(ser_entries(es) + seq![END_ID] + rest, d) == Ok::<(Seq<(Seq<u8>, TagModel)>, int), Error>(
            (es, ser_entries(es).len() + 1int),
        ),
    decreases es,
{
    let s = ser_entries(es) + seq![END_ID] + rest;
    if es.len() == 0 {
        assert(ser_entries(es) == Seq::<u8>::empty());
        assert(s[0] == END_ID);
        assert(es =~= Seq::<(Seq<u8>, TagModel)>::empty());
    } else {
        let e = es[0];
        let tail = es.drop_first();
        let r = ser_entries(tail) + seq![END_ID] + rest;
        lemma_tag_id_not_end(e.1);
        lemma_rt_entries(tail, d, rest);
        lemma_rt_payload(e.1, d, r);
        lemma_rt_string(e.0, ser_payload(e.1) + r);
        assert(ser_entries(es) == ser_entry(e) + ser_entries(tail));
        assert(s =~= seq![tag_id(e.1)] + (ser_string(e.0) + (ser_payload(e.1) + r)));
        assert(s[0] == tag_id(e.1));
        let k1 = ser_string(e.0).len() as int;
        assert(s.subrange(1, s.len() as int) =~= ser_string(e.0) + (ser_payload(e.1) + r));
        let s1 = s.subrange(1 + k1, s.len() as int);
        assert(s1 =~= ser_payload(e.1) + r);
        let k2 = ser_payload(e.1).len() as int;
        assert(s1.subrange(k2, s1.len() as int) =~= r);
        assert(seq![(e.0, e.1)] + tail =~= es);
    }
}

/// A well-formed list of numbers reads back.
#[verifier::spinoff_prover]
#[verifier::rlimit(40)]
proof fn lemma_rt_number_list(l: ListModel, d: int, rest: Seq<u8>)
    requires
        wf_list(l, d),
        l is Empty || l is Byte || l is Short || l is Int || l is Long || l is Float || l is Double,
    ensures
        parse_list(ser_list(l) + rest, d) == Ok::<(ListModel, int), Error>((l, ser_list(l).len() as int)),
{
    let s = ser_list(l) + rest;
    let s1 = s.subrange(1, s.len() as int);
    match l {
        ListModel::Empty => {
            assert(s1 =~= spec_u32_to_be(0) + rest);
        },
        ListModel::Byte(v) => {
            assert(s1 =~= ser_u32_prefixed(v.len(), encode_i8s(v)) + rest);
            lemma_rt_u32_prefixed(v.len(), encode_i8s(v), 1, rest);
            lemma_decode_encode_i8s(v);
        },
        ListModel::Short(v) => {
            assert(s1 =~= ser_u32_prefixed(v.len(), encode_i16s(v)) + rest);
            lemma_rt_u32_prefixed(v.len(), encode_i16s(v), 2, rest);
            lemma_decode_encode_i16s(v);
        },
        ListModel::Int(v) => {
            assert(s1 =~= ser_u32_prefixed(v.len(), encode_i32s(v)) + rest);
            lemma_rt_u32_prefixed(v.len(), encode_i32s(v), 4, rest);
            lemma_decode_encode_i32s(v);
        },
        ListModel::Long(v) => {
            assert(s1 =~= ser_u32_prefixed(v.len(), encode_i64s(v)) + rest);
            lemma_rt_u32_prefixed(v.len(), encode_i64s(v), 8, rest);
            lemma_decode_encode_i64s(v);
        },
        ListModel::Float(v) => {
            assert(s1 =~= ser_u32_prefixed(v.len(), encode_u32s(v)) + rest);
            lemma_rt_u32_prefixed(v.len(), encode_u32s(v), 4, rest);
            lemma_decode_encode_u32s(v);
        },
        ListModel::Double(v) => {
            assert(s1 =~= ser_u32_prefixed(v.len(), encode_u64s(v)) + rest);
            lemma_rt_u32_prefixed(v.len(), encode_u64s(v), 8, rest);
            lemma_decode_encode_u64s(v);
        },
        _ => {},
    }
}

pub(crate) proof fn lemma_list_header(l: ListModel, body: Seq<u8>, n: nat, rest: Seq<u8>)
    requires
        n <= u32::MAX,
        ser_list(l) == seq![list_id(l)] + ser_u32_prefixed(n, body),
    ensures
        ({
            let s = ser_list(l) + rest;
            let s1 = s.subrange(1, s.len() as int);
            &&& s[0] == list_id(l)
            &&& s1.len() >= 4
            &&& spec_u32_be(s1) == n
            &&& s1.subrange(4, s1.len() as int) == body + rest
        }),
{
    let s = ser_list(l) + rest;
    let s1 = s.subrange(1, s.len() as int);
    assert(s1 =~= spec_u32_to_be(n as u32) + (body + rest));
    lemma_u32_prefix(n as u32, body + rest);
    assert(s1.subrange(4, s1.len() as int) =~= body + rest);
}

#[verifier::spinoff_prover]
proof fn lemma_rt_byte_array_list(v: Seq<Seq<u8>>, d: int, rest: Seq<u8>)
    requires
        wf_list(ListModel::ByteArray(v), d),
    ensures
        parse_list(ser_list(ListModel::ByteArray(v)) + rest, d) == Ok::<(ListModel, int), Error>(
            (ListModel::ByteArray(v), ser_list(ListModel::ByteArray(v)).len() as int),
        ),
{
    lemma_list_header(ListModel::ByteArray(v), ser_byte_arrays(v), v.len(), rest);
    lemma_rt_byte_arrays(v, rest);
}

#[verifier::spinoff_prover]
proof fn lemma_rt_string_list(v: Seq<Seq<u8>>, d: int, rest: Seq<u8>)
    requires
        wf_list(ListModel::String(v), d),
    ensures
        parse_list(ser_list(ListModel::String(v)) + rest, d) == Ok::<(ListModel, int), Error>(
            (ListModel::String(v), ser_list(ListModel::String(v)).len() as int),
        ),
{
    lemma_list_header(ListModel::String(v), ser_strings(v), v.len(), rest);
    lemma_rt_strings(v, rest);
}

#[verifier::spinoff_prover]
proof fn lemma_rt_int_array_list(v: Seq<Seq<i32>>, d: int, rest: Seq<u8>)
    requires
        wf_list(ListModel::IntArray(v), d),
    ensures
        parse_list(ser_list(ListModel::IntArray(v)) + rest, d) == Ok::<(ListModel, int), Error>(
            (ListModel::IntArray(v), ser_list(ListModel::IntArray(v)).len() as int),
        ),
{
    lemma_list_header(ListModel::IntArray(v), ser_int_arrays(v), v.len(), rest);
    lemma_rt_int_arrays(v, rest);
    let enc = v.map_values(|a: Seq<i32>| encode_i32s(a));
    assert forall|i: int| 0 <= i < v.len() implies enc.map_values(|x: Seq<u8>| decode_i32s(x))[i] == #[trigger] v[i] by {
        lemma_decode_encode_i32s(v[i]);
    }
    assert(enc.map_values(|x: Seq<u8>| decode_i32s(x)) =~= v);
}

#[verifier::spinoff_prover]
proof fn lemma_rt_long_array_list(v: Seq<Seq<i64>>, d: int, rest: Seq<u8>)
    requires
        wf_list(ListModel::LongArray(v), d),
    ensures
        parse_list(ser_list(ListModel::LongArray(v)) + rest, d) == Ok::<(ListModel, int), Error>(
            (ListModel::LongArray(v), ser_list(ListModel::LongArray(v)).len() as int),
        ),
{
    lemma_list_header(ListModel::LongArray(v), ser_long_arrays(v), v.len(), rest);
    lemma_rt_long_arrays(v, rest);
    let enc = v.map_values(|a: Seq<i64>| encode_i64s(a));
    assert forall|i: int| 0 <= i < v.len() implies enc.map_values(|x: Seq<u8>| decode_i64s(x))[i] == #[trigger] v[i] by {
        lemma_decode_encode_i64s(v[i]);
    }
    assert(enc.map_values(|x: Seq<u8>| decode_i64s(x)) =~= v);
}

/// Parsing a well-formed list, followed by anything, gives the list and its
/// length.
#[verifier::spinoff_prover]
pub proof fn lemma_rt_list(l: ListModel, d: int, rest: Seq<u8>)
    requires
        wf_list(l, d),
    ensures
        parse_list(ser_list(l) + rest, d) == Ok::<(ListModel, int), Error>((l, ser_list(l).len() as int)),
    decreases l,
{
    let s = ser_list(l) + rest;
    let s1 = s.subrange(1, s.len() as int);
    match l {
        ListModel::List(v) => {
            lemma_list_header(l, ser_lists(v), v.len(), rest);
            lemma_rt_lists(v, d + 1, rest);
        },
        ListModel::Compound(v) => {
            lemma_list_header(l, ser_compounds(v), v.len(), rest);
            lemma_rt_compounds(v, d + 1, rest);
        },
        ListModel::ByteArray(v) => lemma_rt_byte_array_list(v, d, rest),
        ListModel::String(v) => lemma_rt_string_list(v, d, rest),
        ListModel::IntArray(v) => lemma_rt_int_array_list(v, d, rest),
        ListModel::LongArray(v) => lemma_rt_long_array_list(v, d, rest),
        _ => lemma_rt_number_list(l, d, rest),
    }
}

/// Parsing the lists of a well-formed list of lists, followed by anything,
/// gives them and their length.
#[verifier::spinoff_prover]
#[verifier::rlimit(30)]
pub proof fn lemma_rt_lists(v: Seq<ListModel>, d: int, rest: Seq<u8>)
    requires
        wf_lists(v, d),
    ensures
        parse_lists(ser_lists(v) + rest, d, v.len()) == Ok::<(Seq<ListModel>, int), Error>(
            (v, ser_lists(v).len() as int),
        ),
    decreases v,
{
    if v.len() == 0 {
        assert(v =~= Seq::<ListModel>::empty());
    } else {
        let tail = v.drop_first();
        let r = ser_lists(tail) + rest;
        let s = ser_lists(v) + rest;
        let k = ser_list(v[0]).len() as int;
        assert(wf_list(v[0], d) && wf_lists(tail, d));
        assert(ser_lists(v) == ser_list(v[0]) + ser_lists(tail));
        assert(s =~= ser_list(v[0]) + r);
        assert(s.subrange(k, s.len() as int) =~= r);
        assert(seq![v[0]] + tail =~= v);
        lemma_rt_list(v[0], d, r);
        lemma_rt_lists(tail, d, rest);
        assert(parse_list(s, d) == Ok::<(ListModel, int), Error>((v[0], k)));
    }
}

/// Parsing the compounds of a well-formed list of compounds, followed by
/// anything, gives them and their length.
#[verifier::spinoff_prover]
#[verifier::rlimit(30)]
pub proof fn lemma_rt_compounds(v: Seq<Seq<(Seq<u8>, TagModel)>>, d: int, rest: Seq<u8>)
    requires
        wf_compounds(v, d),
    ensures
        parse_compounds(ser_compounds(v) + rest, d, v.len()) == Ok::<(Seq<Seq<(Seq<u8>, TagModel)>>, int), Error>(
            (v, ser_compounds(v).len() as int),
        ),
    decreases v,
{
    if v.len() == 0 {
        assert(v =~= Seq::<Seq<(Seq<u8>, TagModel)>>::empty());
    } else {
        let tail = v.drop_first();
        let r = ser_compounds(tail) + rest;
        lemma_rt_entries(v[0], d + 1, r);
        lemma_rt_compounds(tail, d, rest);
        assert(ser_compounds(v) + rest =~= ser_entries(v[0]) + seq![END_ID] + r);
        let s = ser_compounds(v) + rest;
        let k = ser_entries(v[0]).len() + 1int;
        assert(s.subrange(k, s.len() as int) =~= r);
        assert(seq![v[0]] + tail =~= v);
    }
}

/// Reading a written root gives its name and named tags back.
pub proof fn lemma_rt_root(name: Seq<u8>, es: Seq<(Seq<u8>, TagModel)>, rest: Seq<u8>)
    requires
        name.len() <= u16::MAX,
        wf_entries(es, 1),
    ensures
        parse_root(ser_root(name, es) + rest) == Ok::<(Option<(Seq<u8>, Seq<(Seq<u8>, TagModel)>)>, int), Error>(
            (Some((name, es)), ser_root(name, es).len() as int),
        ),
{
    let s = ser_root(name, es) + rest;
    let r = ser_entries(es) + seq![END_ID] + rest;
    lemma_rt_string(name, r);
    lemma_rt_entries(es, 1, rest);
    assert(s =~= seq![COMPOUND_ID] + (ser_string(name) + r));
    assert(s.subrange(1, s.len() as int) =~= ser_string(name) + r);
    let k1 = ser_string(name).len() as int;
    assert(s.subrange(1 + k1, s.len() as int) =~= r);
}

/// A root without a name is the compound tag id followed directly by the
/// compound: reading it gives the named tags back, with no name read in
/// between, and stops right after the compound's end tag.
#[verifier::spinoff_prover]
#[verifier::rlimit(30)]
pub proof fn lemma_rt_unnamed_root(es: Seq<(Seq<u8>, TagModel)>, rest: Seq<u8>)
    requires
        wf_entries(es, 1),
    ensures
        parse_unnamed_root(seq![COMPOUND_ID] + ser_compound(es) + rest) == Ok::<(Option<Seq<(Seq<u8>, TagModel)>>, int), Error>(
            (Some(es), 1 + ser_compound(es).len() as int),
        ),
{
    let s = seq![COMPOUND_ID] + ser_compound(es) + rest;
    lemma_rt_entries(es, 1, rest);
    assert(s.subrange(1, s.len() as int) =~= ser_entries(es) + seq![END_ID] + rest);
}

/// A tag without a name is its tag id followed directly by its payload:
/// reading it gives the tag back and stops right after it.
#[verifier::spinoff_prover]
#[verifier::rlimit(30)]
pub proof fn lemma_rt_unnamed_tag(t: TagModel, rest: Seq<u8>)
    requires
        wf_tag(t, 0),
    ensures
        parse_tag(seq![tag_id(t)] + ser_payload(t) + rest) == Ok::<(TagModel, int), Error>(
            (t, 1 + ser_payload(t).len() as int),
        ),
{
    let s = seq![tag_id(t)] + ser_payload(t) + rest;
    lemma_tag_id_not_end(t);
    lemma_rt_payload(t, 0, rest);
    assert(s.subrange(1, s.len() as int) =~= ser_payload(t) + rest);
    assert(s[0] == tag_id(t));
    assert(parse_optional_tag(s) == Ok::<(Option<TagModel>, int), Error>((Some(t), 1 + ser_payload(t).len() as int)));
}

} // verus!
