//! What a tape describes: how the elements of a tape, together with the data
//! they point into, stand for tags.
//!
//! A tag takes one element, except compounds and lists of lists or compounds,
//! which take their own element followed by the elements of what they hold;
//! their element records how many elements that is in all. A compound holds,
//! per named tag, an element pointing at the name in the data followed by the
//! elements of the tag. Numbers that fit are kept in the element; longer
//! values are read from the data at the position the element holds.

use vstd::prelude::*;

use super::tape::{elem_approx_len, elem_kind_id, elem_offset, elem_payload, APPROX_LEN_MAX};
use crate::common::{spec_u32_be, spec_u64_be};
use crate::error::Error;
use crate::model::{
    decode_i16s, decode_i32s, decode_i64s, decode_i8s, decode_u32s, decode_u64s, parse_string,
    parse_string_seq, parse_u32_prefixed, parse_u32_prefixed_seq, ListModel, TagModel,
};

verus! {

/// How many elements the tag starting with element `x` takes.
pub open spec fn span_of(x: u64) -> int {
    let k = elem_kind_id(x);
    if k == 10 || k == 21 || k == 22 {
        elem_offset(x) as int
    } else {
        1
    }
}

/// The data from position `p` on.
pub open spec fn data_at(data: Seq<u8>, p: u64) -> Seq<u8> {
    data.subrange(p as int, data.len() as int)
}

/// A `u32` count followed by that many arrays of `width`-byte elements.
pub open spec fn parse_counted_arrays(s: Seq<u8>, width: nat) -> Result<(Seq<Seq<u8>>, int), Error> {
    if s.len() < 4 {
        Err(Error::UnexpectedEof)
    } else {
        match parse_u32_prefixed_seq(s.subrange(4, s.len() as int), spec_u32_be(s) as nat, width) {
            Err(e) => Err(e),
            Ok((a, k)) => Ok((a, 4 + k)),
        }
    }
}

/// A `u32` count followed by that many strings.
pub open spec fn parse_counted_strings(s: Seq<u8>) -> Result<(Seq<Seq<u8>>, int), Error> {
    if s.len() < 4 {
        Err(Error::UnexpectedEof)
    } else {
        match parse_string_seq(s.subrange(4, s.len() as int), spec_u32_be(s) as nat) {
            Err(e) => Err(e),
            Ok((a, k)) => Ok((a, 4 + k)),
        }
    }
}

/// The element count that a list element records, saturated.
/// A count saturated at 2^24.
pub open spec fn saturated_len(n: nat) -> u32 {
    if n < 0x100_0000 { n as u32 } else { 0x100_0000 }
}

pub open spec fn approx_of(n: nat) -> u32 {
    if n < APPROX_LEN_MAX { n as u32 } else { APPROX_LEN_MAX }
}

/// Element `i` of tape `t` starts tag `m`, reading values from `data`.
pub open spec fn tape_tag(t: Seq<u64>, data: Seq<u8>, i: int, m: TagModel) -> bool
    decreases m,
{
    &&& 0 <= i < t.len()
    &&& {
        let x = t[i];
        let k = elem_kind_id(x);
        let p = elem_payload(x);
        match m {
            TagModel::Byte(v) => k == 1 && (x as u8) as i8 == v,
            TagModel::Short(v) => k == 2 && (x as u16) as i16 == v,
            TagModel::Int(v) => k == 3 && (x as u32) as i32 == v,
            TagModel::Long(v) => k == 4 && p + 8 <= data.len() && spec_u64_be(data_at(data, p)) as i64 == v,
            TagModel::Float(v) => k == 5 && x as u32 == v,
            TagModel::Double(v) => k == 6 && p + 8 <= data.len() && spec_u64_be(data_at(data, p)) == v,
            TagModel::ByteArray(a) => k == 7 && p <= data.len() && (parse_u32_prefixed(data_at(data, p), 1) is Ok && value_of(parse_u32_prefixed(data_at(data, p), 1)) == a),
            TagModel::String(a) => k == 8 && p <= data.len() && (parse_string(data_at(data, p)) is Ok && value_of(parse_string(data_at(data, p))) == a),
            TagModel::List(l) => tape_list(t, data, i, l),
            TagModel::Compound(es) => k == 10 && i + elem_offset(x) <= t.len()
                && tape_entries(t, data, i + 1, i + elem_offset(x), es),
            TagModel::IntArray(a) => k == 11 && p <= data.len() && (parse_u32_prefixed(data_at(data, p), 4) is Ok && decode_i32s(value_of(parse_u32_prefixed(data_at(data, p), 4))) == a),
            TagModel::LongArray(a) => k == 12 && p <= data.len() && (parse_u32_prefixed(data_at(data, p), 8) is Ok && decode_i64s(value_of(parse_u32_prefixed(data_at(data, p), 8))) == a),
        }
    }
}

/// Elements `j..stop` of tape `t` hold the named tags `es`.
pub open spec fn tape_entries(t: Seq<u64>, data: Seq<u8>, j: int, stop: int, es: Seq<(Seq<u8>, TagModel)>) -> bool
    decreases es,
{
    &&& 0 <= j <= stop <= t.len()
    &&& if es.len() == 0 {
        j == stop
    } else {
        let p = elem_payload(t[j]);
        let next = j + 1 + span_of(t[j + 1]);
        &&& j + 1 < stop
        &&& p <= data.len()
        &&& (parse_string(data_at(data, p)) is Ok && value_of(parse_string(data_at(data, p))) == es[0].0)
        &&& tape_tag(t, data, j + 1, es[0].1)
        &&& j + 1 < next <= stop
        &&& tape_entries(t, data, next, stop, es.drop_first())
    }
}

/// Element `i` of tape `t` starts list `l`.
pub open spec fn tape_list(t: Seq<u64>, data: Seq<u8>, i: int, l: ListModel) -> bool
    decreases l,
{
    &&& 0 <= i < t.len()
    &&& {
        let x = t[i];
        let k = elem_kind_id(x);
        let p = elem_payload(x);
        match l {
            ListModel::Empty => k == 0,
            ListModel::Byte(v) => k == 13 && p <= data.len() && (parse_u32_prefixed(data_at(data, p), 1) is Ok && decode_i8s(value_of(parse_u32_prefixed(data_at(data, p), 1))) == v),
            ListModel::Short(v) => k == 14 && p <= data.len() && (parse_u32_prefixed(data_at(data, p), 2) is Ok && decode_i16s(value_of(parse_u32_prefixed(data_at(data, p), 2))) == v),
            ListModel::Int(v) => k == 15 && p <= data.len() && (parse_u32_prefixed(data_at(data, p), 4) is Ok && decode_i32s(value_of(parse_u32_prefixed(data_at(data, p), 4))) == v),
            ListModel::Long(v) => k == 16 && p <= data.len() && (parse_u32_prefixed(data_at(data, p), 8) is Ok && decode_i64s(value_of(parse_u32_prefixed(data_at(data, p), 8))) == v),
            ListModel::Float(v) => k == 17 && p <= data.len() && (parse_u32_prefixed(data_at(data, p), 4) is Ok && decode_u32s(value_of(parse_u32_prefixed(data_at(data, p), 4))) == v),
            ListModel::Double(v) => k == 18 && p <= data.len() && (parse_u32_prefixed(data_at(data, p), 8) is Ok && decode_u64s(value_of(parse_u32_prefixed(data_at(data, p), 8))) == v),
            ListModel::ByteArray(v) => k == 19 && p <= data.len() && (parse_counted_arrays(data_at(data, p), 1) is Ok && value_of(parse_counted_arrays(data_at(data, p), 1)) == v),
            ListModel::String(v) => k == 20 && p <= data.len() && (parse_counted_strings(data_at(data, p)) is Ok && value_of(parse_counted_strings(data_at(data, p))) == v),
            ListModel::List(v) => k == 21 && elem_approx_len(x) == approx_of(v.len()) && i + elem_offset(x) <= t.len()
                && tape_lists(t, data, i + 1, i + elem_offset(x), v),
            ListModel::Compound(v) => k == 22 && elem_approx_len(x) == approx_of(v.len()) && i + elem_offset(x) <= t.len()
                && tape_compounds(t, data, i + 1, i + elem_offset(x), v),
            ListModel::IntArray(v) => k == 23 && p <= data.len() && parse_counted_arrays(data_at(data, p), 4) is Ok
                && value_of(parse_counted_arrays(data_at(data, p), 4)).map_values(|b: Seq<u8>| decode_i32s(b)) == v,
            ListModel::LongArray(v) => k == 24 && p <= data.len() && parse_counted_arrays(data_at(data, p), 8) is Ok
                && value_of(parse_counted_arrays(data_at(data, p), 8)).map_values(|b: Seq<u8>| decode_i64s(b)) == v,
        }
    }
}

/// Elements `j..stop` of tape `t` hold the lists `v`, one after another.
pub open spec fn tape_lists(t: Seq<u64>, data: Seq<u8>, j: int, stop: int, v: Seq<ListModel>) -> bool
    decreases v,
{
    &&& 0 <= j <= stop <= t.len()
    &&& if v.len() == 0 {
        j == stop
    } else {
        let next = j + span_of(t[j]);
        &&& j < next <= stop
        &&& tape_list(t, data, j, v[0])
        &&& tape_lists(t, data, next, stop, v.drop_first())
    }
}

/// Elements `j..stop` of tape `t` hold the compounds `v`, one after another.
pub open spec fn tape_compounds(t: Seq<u64>, data: Seq<u8>, j: int, stop: int, v: Seq<Seq<(Seq<u8>, TagModel)>>) -> bool
    decreases v,
{
    &&& 0 <= j <= stop <= t.len()
    &&& if v.len() == 0 {
        j == stop
    } else {
        let next = j + span_of(t[j]);
        &&& elem_kind_id(t[j]) == 10
        &&& j < next <= stop
        &&& tape_entries(t, data, j + 1, next, v[0])
        &&& tape_compounds(t, data, next, stop, v.drop_first())
    }
}

/// Two tapes agree on elements `lo..hi`.
pub open spec fn agree(t: Seq<u64>, t2: Seq<u64>, lo: int, hi: int) -> bool {
    &&& 0 <= lo <= hi <= t.len()
    &&& hi <= t2.len()
    &&& forall|k: int| lo <= k < hi ==> #[trigger] t2[k] == t[k]
}

/// The value that a successful parse gives.
pub open spec fn value_of<T>(r: Result<(T, int), Error>) -> T {
    r->Ok_0.0
}

/// The span of a tag recorded on the tape.
pub proof fn lemma_tag_span(t: Seq<u64>, data: Seq<u8>, i: int, m: TagModel)
    requires
        tape_tag(t, data, i, m),
    ensures
        1 <= span_of(t[i]),
        i + span_of(t[i]) <= t.len(),
{
    match m {
        TagModel::List(l) => lemma_list_span(t, data, i, l),
        TagModel::Compound(es) => {
            assert(elem_kind_id(t[i]) == 10);
        },
        _ => {},
    }
}

/// The span of a list recorded on the tape.
pub proof fn lemma_list_span(t: Seq<u64>, data: Seq<u8>, i: int, l: ListModel)
    requires
        tape_list(t, data, i, l),
    ensures
        1 <= span_of(t[i]),
        i + span_of(t[i]) <= t.len(),
{
}

/// A tag stays where it is when the elements it takes are unchanged.
pub proof fn lemma_frame_tag(t: Seq<u64>, t2: Seq<u64>, data: Seq<u8>, i: int, m: TagModel)
    requires
        tape_tag(t, data, i, m),
        agree(t, t2, i, i + span_of(t[i])),
    ensures
        tape_tag(t2, data, i, m),
    decreases m,
{
    lemma_tag_span(t, data, i, m);
    assert(t2[i] == t[i]);
    match m {
        TagModel::List(l) => lemma_frame_list(t, t2, data, i, l),
        TagModel::Compound(es) => {
            let o = elem_offset(t[i]);
            lemma_frame_entries(t, t2, data, i + 1, i + o, es);
        },
        _ => {},
    }
}

/// Named tags stay where they are when their elements are unchanged.
pub proof fn lemma_frame_entries(t: Seq<u64>, t2: Seq<u64>, data: Seq<u8>, j: int, stop: int, es: Seq<(Seq<u8>, TagModel)>)
    requires
        tape_entries(t, data, j, stop, es),
        agree(t, t2, j, stop),
    ensures
        tape_entries(t2, data, j, stop, es),
    decreases es,
{
    if es.len() > 0 {
        assert(t2[j] == t[j]);
        assert(t2[j + 1] == t[j + 1]);
        let next = j + 1 + span_of(t[j + 1]);
        lemma_frame_tag(t, t2, data, j + 1, es[0].1);
        lemma_frame_entries(t, t2, data, next, stop, es.drop_first());
    }
}

/// A list stays where it is when the elements it takes are unchanged.
pub proof fn lemma_frame_list(t: Seq<u64>, t2: Seq<u64>, data: Seq<u8>, i: int, l: ListModel)
    requires
        tape_list(t, data, i, l),
        agree(t, t2, i, i + span_of(t[i])),
    ensures
        tape_list(t2, data, i, l),
    decreases l,
{
    assert(t2[i] == t[i]);
    match l {
        ListModel::List(v) => {
            lemma_frame_lists(t, t2, data, i + 1, i + elem_offset(t[i]), v);
        },
        ListModel::Compound(v) => {
            lemma_frame_compounds(t, t2, data, i + 1, i + elem_offset(t[i]), v);
        },
        _ => {},
    }
}

/// Lists stay where they are when their elements are unchanged.
pub proof fn lemma_frame_lists(t: Seq<u64>, t2: Seq<u64>, data: Seq<u8>, j: int, stop: int, v: Seq<ListModel>)
    requires
        tape_lists(t, data, j, stop, v),
        agree(t, t2, j, stop),
    ensures
        tape_lists(t2, data, j, stop, v),
    decreases v,
{
    if v.len() > 0 {
        assert(t2[j] == t[j]);
        let next = j + span_of(t[j]);
        lemma_frame_list(t, t2, data, j, v[0]);
        lemma_frame_lists(t, t2, data, next, stop, v.drop_first());
    }
}

/// Compounds stay where they are when their elements are unchanged.
pub proof fn lemma_frame_compounds(t: Seq<u64>, t2: Seq<u64>, data: Seq<u8>, j: int, stop: int, v: Seq<Seq<(Seq<u8>, TagModel)>>)
    requires
        tape_compounds(t, data, j, stop, v),
        agree(t, t2, j, stop),
    ensures
        tape_compounds(t2, data, j, stop, v),
    decreases v,
{
    if v.len() > 0 {
        assert(t2[j] == t[j]);
        let next = j + span_of(t[j]);
        lemma_frame_entries(t, t2, data, j + 1, next, v[0]);
        lemma_frame_compounds(t, t2, data, next, stop, v.drop_first());
    }
}

/// A named tag placed right after named tags extends them.
pub proof fn lemma_entries_append(
    t: Seq<u64>,
    t2: Seq<u64>,
    data: Seq<u8>,
    j: int,
    stop: int,
    es: Seq<(Seq<u8>, TagModel)>,
    name: Seq<u8>,
    m: TagModel,
)
    requires
        tape_entries(t, data, j, stop, es),
        agree(t, t2, j, stop),
        stop + 1 < t2.len(),
        elem_payload(t2[stop]) <= data.len(),
        (parse_string(data_at(data, elem_payload(t2[stop]))) is Ok && value_of(parse_string(data_at(data, elem_payload(t2[stop])))) == name),
        tape_tag(t2, data, stop + 1, m),
    ensures
        tape_entries(t2, data, j, stop + 1 + span_of(t2[stop + 1]), es.push((name, m))),
    decreases es,
{
    lemma_tag_span(t2, data, stop + 1, m);
    let end = stop + 1 + span_of(t2[stop + 1]);
    if es.len() == 0 {
        assert(j == stop);
        assert(es.push((name, m)).drop_first() =~= Seq::<(Seq<u8>, TagModel)>::empty());
        assert(tape_entries(t2, data, end, end, Seq::<(Seq<u8>, TagModel)>::empty()));
    } else {
        assert(t2[j] == t[j]);
        assert(t2[j + 1] == t[j + 1]);
        let next = j + 1 + span_of(t[j + 1]);
        lemma_frame_tag(t, t2, data, j + 1, es[0].1);
        lemma_entries_append(t, t2, data, next, stop, es.drop_first(), name, m);
        assert(es.push((name, m)).drop_first() =~= es.drop_first().push((name, m)));
    }
}

/// A list placed right after lists extends them.
pub proof fn lemma_lists_append(t: Seq<u64>, t2: Seq<u64>, data: Seq<u8>, j: int, stop: int, v: Seq<ListModel>, l: ListModel)
    requires
        tape_lists(t, data, j, stop, v),
        agree(t, t2, j, stop),
        tape_list(t2, data, stop, l),
    ensures
        tape_lists(t2, data, j, stop + span_of(t2[stop]), v.push(l)),
    decreases v,
{
    lemma_list_span(t2, data, stop, l);
    if v.len() == 0 {
        assert(v.push(l).drop_first() =~= Seq::<ListModel>::empty());
        let end = stop + span_of(t2[stop]);
        assert(tape_lists(t2, data, end, end, Seq::<ListModel>::empty()));
    } else {
        assert(t2[j] == t[j]);
        let next = j + span_of(t[j]);
        lemma_frame_list(t, t2, data, j, v[0]);
        lemma_lists_append(t, t2, data, next, stop, v.drop_first(), l);
        assert(v.push(l).drop_first() =~= v.drop_first().push(l));
    }
}

/// A compound placed right after compounds extends them.
pub proof fn lemma_compounds_append(
    t: Seq<u64>,
    t2: Seq<u64>,
    data: Seq<u8>,
    j: int,
    stop: int,
    v: Seq<Seq<(Seq<u8>, TagModel)>>,
    c: Seq<(Seq<u8>, TagModel)>,
)
    requires
        tape_compounds(t, data, j, stop, v),
        agree(t, t2, j, stop),
        tape_tag(t2, data, stop, TagModel::Compound(c)),
    ensures
        tape_compounds(t2, data, j, stop + span_of(t2[stop]), v.push(c)),
    decreases v,
{
    lemma_tag_span(t2, data, stop, TagModel::Compound(c));
    if v.len() == 0 {
        assert(v.push(c).drop_first() =~= Seq::<Seq<(Seq<u8>, TagModel)>>::empty());
        let end = stop + span_of(t2[stop]);
        assert(tape_compounds(t2, data, end, end, Seq::<Seq<(Seq<u8>, TagModel)>>::empty()));
    } else {
        assert(t2[j] == t[j]);
        let next = j + span_of(t[j]);
        lemma_frame_entries(t, t2, data, j + 1, next, v[0]);
        lemma_compounds_append(t, t2, data, next, stop, v.drop_first(), c);
        assert(v.push(c).drop_first() =~= v.drop_first().push(c));
    }
}

/// Lists on the tape take at least one element each.
pub proof fn lemma_lists_count_bound(t: Seq<u64>, data: Seq<u8>, j: int, stop: int, v: Seq<ListModel>)
    requires
        tape_lists(t, data, j, stop, v),
    ensures
        v.len() <= stop - j,
        j < stop <==> v.len() > 0,
    decreases v.len(),
{
    if v.len() > 0 {
        lemma_lists_count_bound(t, data, j + span_of(t[j]), stop, v.drop_first());
    }
}

/// Compounds on the tape take at least one element each.
pub proof fn lemma_compounds_count_bound(t: Seq<u64>, data: Seq<u8>, j: int, stop: int, v: Seq<Seq<(Seq<u8>, TagModel)>>)
    requires
        tape_compounds(t, data, j, stop, v),
    ensures
        v.len() <= stop - j,
        j < stop <==> v.len() > 0,
    decreases v.len(),
{
    if v.len() > 0 {
        lemma_compounds_count_bound(t, data, j + span_of(t[j]), stop, v.drop_first());
    }
}

} // verus!
