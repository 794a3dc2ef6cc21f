//! The owned reader reads back what was written.
//!
//! A tag can be read back by the owned reader whenever every length fits its
//! length prefix and no compound or list in it lies deeper than the owned
//! reader accepts (depth counted as in `format`). Parsing the bytes of such a
//! tag, followed by anything, gives the tag back and consumes exactly its
//! bytes.

use vstd::prelude::*;

use crate::common::{COMPOUND_ID, END_ID, LIST_ID, MAX_DEPTH};
use crate::error::Error;
use crate::model::{
    parse_string, list_id, ser_compounds, ser_entries, ser_entry, ser_list, ser_lists, ser_payload, ser_root,
    ser_string, tag_id, ListModel, TagModel,
};
use crate::roundtrip::{
    lemma_list_header, lemma_rt_list, lemma_rt_payload, lemma_rt_string, lemma_tag_id_not_end,
    wf_list, wf_tag,
};
use super::format::{
    owned_parse_compounds, owned_parse_entries, owned_parse_list, owned_parse_lists,
    owned_parse_payload, owned_parse_root,
};

verus! {

/// A tag inside a compound at depth `d` can be written and read back by the
/// owned reader.
pub open spec fn owned_wf_tag(t: TagModel, d: int) -> bool
    decreases t,
{
    match t {
        TagModel::List(l) => owned_wf_list(l, d + 1),
        TagModel::Compound(es) => owned_wf_entries(es, d + 1),
        _ => wf_tag(t, d),
    }
}

/// The named tags of a compound at depth `d` can be written and read back by
/// the owned reader.
pub open spec fn owned_wf_entries(es: Seq<(Seq<u8>, TagModel)>, d: int) -> bool
    decreases es,
{
    &&& d <= MAX_DEPTH
    &&& es.len() > 0 ==> {
        &&& es[0].0.len() <= u16::MAX
        &&& owned_wf_tag(es[0].1, d)
        &&& owned_wf_entries(es.drop_first(), d)
    }
}

/// A list at depth `d` can be written and read back by the owned reader.
pub open spec fn owned_wf_list(l: ListModel, d: int) -> bool
    decreases l,
{
    &&& d <= MAX_DEPTH
    &&& match l {
        ListModel::List(v) => v.len() <= u32::MAX && owned_wf_lists(v, d + 1),
        ListModel::Compound(v) => v.len() <= u32::MAX && owned_wf_compounds(v, d + 1),
        _ => wf_list(l, d),
    }
}

/// The lists of a list of lists, each at depth `d`, can be written and read
/// back by the owned reader.
pub open spec fn owned_wf_lists(v: Seq<ListModel>, d: int) -> bool
    decreases v,
{
    v.len() > 0 ==> owned_wf_list(v[0], d) && owned_wf_lists(v.drop_first(), d)
}

/// The compounds of a list of compounds, each at depth `d`, can be written
/// and read back by the owned reader.
pub open spec fn owned_wf_compounds(v: Seq<Seq<(Seq<u8>, TagModel)>>, d: int) -> bool
    decreases v,
{
    v.len() > 0 ==> owned_wf_entries(v[0], d) && owned_wf_compounds(v.drop_first(), d)
}

/// Parsing the payload of a tag that the owned reader can read back,
/// followed by anything, gives the tag and its length.
pub proof fn lemma_owned_rt_payload(t: TagModel, d: int, rest: Seq<u8>)
    requires
        owned_wf_tag(t, d),
    ensures
        owned_parse_payload(ser_payload(t) + rest, d, tag_id(t)) == Ok::<(TagModel, int), Error>(
            (t, ser_payload(t).len() as int),
        ),
    decreases t,
{
    match t {
        TagModel::List(l) => {
            lemma_owned_rt_list(l, d + 1, rest);
        },
        TagModel::Compound(es) => {
            lemma_owned_rt_entries(es, d + 1, rest);
        },
        _ => {
            lemma_rt_payload(t, d, rest);
        },
    }
}

/// Parsing the named tags of a compound that the owned reader can read back,
/// and its end tag, followed by anything, gives the named tags and their
/// length.
#[verifier::spinoff_prover]
pub proof fn lemma_owned_rt_entries(es: Seq<(Seq<u8>, TagModel)>, d: int, rest: Seq<u8>)
    requires
        owned_wf_entries(es, d),
    ensures
        owned_parse_entries(ser_entries(es) + seq![END_ID] + rest, d) == Ok::<(Seq<(Seq<u8>, TagModel)>, int), Error>(
            (es, ser_entries(es).len() + 1int),
        ),
    decreases es,
{
    let s = ser_entries(es) + seq![END_ID] + rest;
    if es.len() == 0 {
        assert(ser_entries(es) == Seq::<u8>::empty());
        assert(s[0] == END_ID);
        assert(es =~= Seq::<(Seq<u8>, TagModel)>::empty());
    } else {
        let e = es[0];
        let tail = es.drop_first();
        let r = ser_entries(tail) + seq![END_ID] + rest;
        assert(d <= MAX_DEPTH && e.0.len() <= u16::MAX && owned_wf_tag(e.1, d));
        assert(owned_wf_entries(tail, d));
        lemma_owned_rt_entries(tail, d, rest);
        lemma_owned_rt_payload(e.1, d, r);
        lemma_owned_rt_entries_cons(es, d, rest);
    }
}

/// The first named tag of a compound and then the rest read back, given
/// that each of the two does.
#[verifier::spinoff_prover]
#[verifier::rlimit(60)]
proof fn lemma_owned_rt_entries_cons(es: Seq<(Seq<u8>, TagModel)>, d: int, rest: Seq<u8>)
    requires
        es.len() > 0,
        d <= MAX_DEPTH,
        es[0].0.len() <= u16::MAX,
        owned_parse_payload(ser_payload(es[0].1) + (ser_entries(es.drop_first()) + seq![END_ID] + rest), d, tag_id(es[0].1))
            == Ok::<(TagModel, int), Error>((es[0].1, ser_payload(es[0].1).len() as int)),
        owned_parse_entries(ser_entries(es.drop_first()) + seq![END_ID] + rest, d)
            == Ok::<(Seq<(Seq<u8>, TagModel)>, int), Error>((es.drop_first(), ser_entries(es.drop_first()).len() + 1int)),
    ensures
        owned_parse_entries(ser_entries(es) + seq![END_ID] + rest, d) == Ok::<(Seq<(Seq<u8>, TagModel)>, int), Error>(
            (es, ser_entries(es).len() + 1int),
        ),
{
    let s = ser_entries(es) + seq![END_ID] + rest;
    let e = es[0];
    let tail = es.drop_first();
    let r = ser_entries(tail) + seq![END_ID] + rest;
    lemma_tag_id_not_end(e.1);
    lemma_rt_string(e.0, ser_payload(e.1) + r);
    assert(ser_entries(es) == ser_entry(e) + ser_entries(tail));
    assert(s =~= seq![tag_id(e.1)] + (ser_string(e.0) + (ser_payload(e.1) + r)));
    assert(s[0] == tag_id(e.1));
    let k1 = ser_string(e.0).len() as int;
    assert(s.subrange(1, s.len() as int) =~= ser_string(e.0) + (ser_payload(e.1) + r));
    let s1 = s.subrange(1 + k1, s.len() as int);
    assert(s1 =~= ser_payload(e.1) + r);
    let k2 = ser_payload(e.1).len() as int;
    assert(s1.subrange(k2, s1.len() as int) =~= r);
    lemma_owned_entries_step(s, d, e.0, k1, e.1, k2, tail, ser_entries(tail).len() + 1int);
    assert(seq![(e.0, e.1)] + tail =~= es);
}

/// One named tag and then the rest of a compound, as the owned reader reads
/// them.
proof fn lemma_owned_entries_step(
    s: Seq<u8>,
    d: int,
    name: Seq<u8>,
    k1: int,
    tag: TagModel,
    k2: int,
    tail: Seq<(Seq<u8>, TagModel)>,
    k3: int,
)
    requires
        d <= MAX_DEPTH,
        s.len() >= 1,
        s[0] != END_ID,
        parse_string(s.subrange(1, s.len() as int)) == Ok::<(Seq<u8>, int), Error>((name, k1)),
        owned_parse_payload(s.subrange(1 + k1, s.len() as int), d, s[0]) == Ok::<(TagModel, int), Error>((tag, k2)),
        0 <= k2 <= s.len() - 1 - k1,
        owned_parse_entries(s.subrange(1 + k1, s.len() as int).subrange(k2, s.len() - 1 - k1), d)
            == Ok::<(Seq<(Seq<u8>, TagModel)>, int), Error>((tail, k3)),
    ensures
        owned_parse_entries(s, d) == Ok::<(Seq<(Seq<u8>, TagModel)>, int), Error>(
            (seq![(name, tag)] + tail, 1 + k1 + k2 + k3),
        ),
{
}

/// Parsing a list that the owned reader can read back, followed by
/// anything, gives the list and its length.
#[verifier::spinoff_prover]
pub proof fn lemma_owned_rt_list(l: ListModel, d: int, rest: Seq<u8>)
    requires
        owned_wf_list(l, d),
    ensures
        owned_parse_list(ser_list(l) + rest, d) == Ok::<(ListModel, int), Error>((l, ser_list(l).len() as int)),
    decreases l,
{
    let s = ser_list(l) + rest;
    match l {
        ListModel::List(v) => {
            lemma_list_header(l, ser_lists(v), v.len(), rest);
            lemma_owned_rt_lists(v, d + 1, rest);
        },
        ListModel::Compound(v) => {
            lemma_list_header(l, ser_compounds(v), v.len(), rest);
            lemma_owned_rt_compounds(v, d + 1, rest);
        },
        _ => {
            lemma_rt_list(l, d, rest);
            assert(s[0] == list_id(l));
        },
    }
}

/// Parsing the lists of a list of lists that the owned reader can read back,
/// followed by anything, gives them and their length.
#[verifier::spinoff_prover]
#[verifier::rlimit(30)]
pub proof fn lemma_owned_rt_lists(v: Seq<ListModel>, d: int, rest: Seq<u8>)
    requires
        owned_wf_lists(v, d),
    ensures
        owned_parse_lists(ser_lists(v) + rest, d, v.len()) == Ok::<(Seq<ListModel>, int), Error>(
            (v, ser_lists(v).len() as int),
        ),
    decreases v,
{
    if v.len() == 0 {
        assert(v =~= Seq::<ListModel>::empty());
    } else {
        let tail = v.drop_first();
        let r = ser_lists(tail) + rest;
        let s = ser_lists(v) + rest;
        let k = ser_list(v[0]).len() as int;
        assert(ser_lists(v) == ser_list(v[0]) + ser_lists(tail));
        assert(s =~= ser_list(v[0]) + r);
        assert(s.subrange(k, s.len() as int) =~= r);
        assert(seq![v[0]] + tail =~= v);
        lemma_owned_rt_list(v[0], d, r);
        lemma_owned_rt_lists(tail, d, rest);
    }
}

/// Parsing the compounds of a list of compounds that the owned reader can
/// read back, followed by anything, gives them and their length.
#[verifier::spinoff_prover]
#[verifier::rlimit(30)]
pub proof fn lemma_owned_rt_compounds(v: Seq<Seq<(Seq<u8>, TagModel)>>, d: int, rest: Seq<u8>)
    requires
        owned_wf_compounds(v, d),
    ensures
        owned_parse_compounds(ser_compounds(v) + rest, d, v.len()) == Ok::<(Seq<Seq<(Seq<u8>, TagModel)>>, int), Error>(
            (v, ser_compounds(v).len() as int),
        ),
    decreases v,
{
    if v.len() == 0 {
        assert(v =~= Seq::<Seq<(Seq<u8>, TagModel)>>::empty());
    } else {
        let tail = v.drop_first();
        let r = ser_compounds(tail) + rest;
        lemma_owned_rt_entries(v[0], d, r);
        lemma_owned_rt_compounds(tail, d, rest);
        assert(ser_compounds(v) + rest =~= ser_entries(v[0]) + seq![END_ID] + r);
        let s = ser_compounds(v) + rest;
        let k = ser_entries(v[0]).len() + 1int;
        assert(s.subrange(k, s.len() as int) =~= r);
        assert(seq![v[0]] + tail =~= v);
    }
}

/// The owned reader reads a written root back: its name and named tags.
pub proof fn lemma_owned_rt_root(name: Seq<u8>, es: Seq<(Seq<u8>, TagModel)>, rest: Seq<u8>)
    requires
        name.len() <= u16::MAX,
        owned_wf_entries(es, 0),
    ensures
        owned_parse_root(ser_root(name, es) + rest) == Ok::<(Option<(Seq<u8>, Seq<(Seq<u8>, TagModel)>)>, int), Error>(
            (Some((name, es)), ser_root(name, es).len() as int),
        ),
{
    let s = ser_root(name, es) + rest;
    let r = ser_entries(es) + seq![END_ID] + rest;
    lemma_rt_string(name, r);
    lemma_owned_rt_entries(es, 0, rest);
    assert(s =~= seq![COMPOUND_ID] + (ser_string(name) + r));
    assert(s.subrange(1, s.len() as int) =~= ser_string(name) + r);
    let k1 = ser_string(name).len() as int;
    assert(s.subrange(1 + k1, s.len() as int) =~= r);
}

} // verus!
