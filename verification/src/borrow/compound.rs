//! Borrowed compounds.

use vstd::prelude::*;

use super::layout::{
    agree, data_at, lemma_entries_append, lemma_frame_entries, lemma_tag_span, span_of,
    tape_entries, tape_tag, value_of,
};
use super::tape::{
    elem_kind_id, elem_offset, lemma_make_container, lemma_make_elem, MainTape, TapeElement,
    TapeTagKind,
};
use super::{fits, grew, kind_at, span_at, string_at, NbtTag};
use super::list::NbtList;
use crate::model::{has_key, lemma_lookup_has_key, lemma_lookup_skip, lookup};
use crate::mutf8::{mutf8_of_str, Mutf8Str};
use crate::common::{read_string, END_ID};
use crate::error::Error;
use crate::model::{
    lemma_payload_bounds, lemma_prepend_push, parse_entries, parse_payload, prepend, TagModel,
};
use crate::reader::{lemma_rest_advance, Reader};

verus! {

/// The named tags of a compound not yet visited, in order.
pub struct NbtCompoundIter<'a, 'tape> {
    pub data: &'a [u8],
    pub tape: &'tape MainTape,
    /// The tape index of the next name.
    pub current: usize,
    /// The tape index just past the compound's last tag.
    pub stop: usize,
    pub model: Ghost<Seq<(Seq<u8>, TagModel)>>,
}

impl<'a, 'tape> View for NbtCompoundIter<'a, 'tape> {
    type V = Seq<(Seq<u8>, TagModel)>;

    /// The names and tags not visited yet.
    open spec fn view(&self) -> Seq<(Seq<u8>, TagModel)> {
        self.model@
    }
}

impl<'a, 'tape> NbtCompoundIter<'a, 'tape> {
    pub open spec fn wf(&self) -> bool {
        &&& self.data@.len() <= u32::MAX
        &&& tape_entries(self.tape@, self.data@, self.current as int, self.stop as int, self.model@)
    }

    /// The next name and tag.
    pub fn next(&mut self) -> (r: Option<(Mutf8Str<'a>, NbtTag<'a, 'tape>)>)
        requires
            old(self).wf(),
        ensures
            final(self).wf(),
            old(self)@.len() == 0 ==> r is None && final(self)@ == old(self)@,
            old(self)@.len() > 0 ==> (r matches Some((name, tag)) && name@ == old(self)@[0].0
                && tag@ == old(self)@[0].1 && tag.wf() && final(self)@ == old(self)@.drop_first()),
    {
        if self.current >= self.stop {
            return None;
        }
        let ghost es = self.model@;
        let j = self.current;
        let name = string_at(self.data, self.tape.get(j).ptr());
        let tag = NbtTag { data: self.data, tape: self.tape, index: j + 1, model: Ghost(es[0].1) };
        self.current = j + 1 + span_at(self.tape, j + 1);
        self.model = Ghost(es.drop_first());
        Some((name, tag))
    }
}

/// A compound: a view of a tape and the data it points into.
pub struct NbtCompound<'a, 'tape> {
    pub data: &'a [u8],
    pub tape: &'tape MainTape,
    /// The index of the compound's element on the tape.
    pub index: usize,
    pub model: Ghost<Seq<(Seq<u8>, TagModel)>>,
}

impl<'a, 'tape> View for NbtCompound<'a, 'tape> {
    type V = Seq<(Seq<u8>, TagModel)>;

    open spec fn view(&self) -> Seq<(Seq<u8>, TagModel)> {
        self.model@
    }
}

impl<'a, 'tape> NbtCompound<'a, 'tape> {
    /// The tape holds the compound at `index`.
    pub open spec fn wf(&self) -> bool {
        &&& self.data@.len() <= u32::MAX
        &&& tape_tag(self.tape@, self.data@, self.index as int, TagModel::Compound(self.model@))
    }

    /// Reads the named tags of a compound at `depth`, up to and including its
    /// end tag, pushing the compound's element and theirs to the tape.
    #[verifier::rlimit(40)]
    pub fn read_with_depth(data: &mut Reader<'a>, tape: &mut MainTape, depth: usize) -> (r: Result<(), Error>)
        requires
            old(data).wf(),
            fits(*old(data), old(tape)@),
        ensures
            final(data).wf(),
            match parse_entries(old(data).rest(), depth as int) {
                Ok((es, k)) => {
                    &&& r is Ok
                    &&& final(data).advanced(*old(data), k)
                    &&& grew(old(tape)@, final(tape)@, k)
                    &&& tape_tag(final(tape)@, old(data).data@, old(tape)@.len() as int, TagModel::Compound(es))
                    &&& old(tape)@.len() + span_of(final(tape)@[old(tape)@.len() as int]) == final(tape)@.len()
                },
                Err(e) => r == Err::<(), Error>(e),
            },
        decreases old(data).rest().len(), 0nat,
    {
        let ghost start = *data;
        let ghost s0 = data.rest();
        let ghost t0 = tape@;
        let ghost bytes = data.data@;
        let c = tape.len();
        tape.push(TapeElement::new_with_approx_len_and_offset(TapeTagKind::Compound, 0, 0));
        proof {
            lemma_make_container(10, 0, 0);
        }
        let ghost placeholder = tape@[c as int];
        let ghost mut done: Seq<(Seq<u8>, TagModel)> = seq![];
        loop
            invariant_except_break
                start == *old(data),
                s0 == start.rest(),
                t0 == old(tape)@,
                bytes == start.data@,
                c == t0.len(),
                start.wf(),
                data.wf(),
                data.data@ == bytes,
                start.cur <= data.cur,
                fits(start, t0),
                c + 1 <= tape@.len(),
                tape@.len() - (c + 1) <= data.cur - start.cur,
                agree(t0, tape@, 0, c as int),
                tape@[c as int] == placeholder,
                elem_kind_id(placeholder) == 10,
                tape_entries(tape@, bytes, c + 1, tape@.len() as int, done),
                parse_entries(s0, depth as int) == prepend(done, data.cur - start.cur, parse_entries(data.rest(), depth as int)),
            ensures
                data.wf(),
                data.data@ == bytes,
                start.cur <= data.cur,
                c + 1 <= tape@.len(),
                tape@.len() - (c + 1) < data.cur - start.cur,
                agree(t0, tape@, 0, c as int),
                tape@[c as int] == placeholder,
                elem_kind_id(placeholder) == 10,
                tape_entries(tape@, bytes, c + 1, tape@.len() as int, done),
                parse_entries(s0, depth as int) == Ok::<(Seq<(Seq<u8>, TagModel)>, int), Error>((done, data.cur - start.cur)),
            decreases data.data@.len() - data.cur,
        {
            let ghost before = *data;
            let ghost tb = tape@;
            let tag_type = data.read_u8()?;
            if tag_type == END_ID {
                proof {
                    assert(done + seq![] =~= done);
                }
                break;
            }
            let ghost after_type = *data;
            proof {
                lemma_rest_advance(before, after_type, 1);
            }
            let name_ptr = data.cur as u64;
            read_string(data)?;
            let ghost after_name = *data;
            let ghost k1 = after_name.cur - after_type.cur;
            let ghost s1 = before.rest().subrange(1 + k1, before.rest().len() as int);
            proof {
                lemma_rest_advance(after_type, after_name, k1);
                assert(s1 =~= after_name.rest());
                lemma_payload_bounds(s1, depth as int, tag_type);
                assert(after_type.rest() =~= data_at(bytes, name_ptr));
            }
            tape.push(TapeElement::new_with_ptr(TapeTagKind::EmptyList, name_ptr));
            proof {
                lemma_make_elem(0, name_ptr);
            }
            let ghost tn = tape@;
            NbtTag::read_with_type(data, tape, tag_type, depth)?;
            proof {
                let m = value_of(parse_payload(s1, depth as int, tag_type));
                let name = value_of(crate::model::parse_string(after_type.rest()));
                let k2 = data.cur - after_name.cur;
                lemma_rest_advance(after_name, *data, k2);
                assert(data.rest() == s1.subrange(k2, s1.len() as int));
                lemma_prepend_push(done, before.cur - start.cur, (name, m), 1 + k1 + k2,
                    parse_entries(data.rest(), depth as int));
                lemma_entries_append(tb, tape@, bytes, c + 1, tb.len() as int, done, name, m);
                done = done.push((name, m));
            }
        }
        let end = tape.len();
        let ghost tl = tape@;
        proof {
            assert(end - c <= u32::MAX);
        }
        tape.set_offset_at(c, (end - c) as u32);
        proof {
            lemma_make_container(10, super::tape::elem_approx_len(placeholder), (end - c) as u32);
            lemma_frame_entries(tl, tape@, bytes, c + 1, end as int, done);
            assert(elem_offset(tape@[c as int]) == end - c);
        }
        Ok(())
    }
}

impl<'a, 'tape> NbtCompound<'a, 'tape> {
    /// The index just past the compound's elements on the tape.
    fn stop(&self) -> (r: usize)
        requires
            self.wf(),
        ensures
            self.index < r <= self.tape@.len(),
            r == self.index + elem_offset(self.tape@[self.index as int]),
            tape_entries(self.tape@, self.data@, self.index + 1, r as int, self@),
    {
        let _n = self.tape.len();
        let o = self.tape.get(self.index).approx_len_and_offset().1;
        self.index + o as usize
    }

    /// The first tag named `key`.
    fn find(&self, key: &Mutf8Str) -> (r: Option<NbtTag<'a, 'tape>>)
        requires
            self.wf(),
        ensures
            match lookup(self@, key@) {
                Some(m) => r matches Some(t) && t@ == m && t.wf(),
                None => r is None,
            },
    {
        let stop = self.stop();
        let ghost es = self@;
        let mut j: usize = self.index + 1;
        let ghost mut k: int = 0;
        assert(es.subrange(0, es.len() as int) =~= es);
        while j < stop
            invariant
                self.wf(),
                es == self@,
                stop <= self.tape@.len(),
                0 <= k <= es.len(),
                tape_entries(self.tape@, self.data@, j as int, stop as int, es.subrange(k, es.len() as int)),
                forall|i: int| 0 <= i < k ==> #[trigger] es[i].0 != key@,
            decreases stop - j,
        {
            let ghost rest = es.subrange(k, es.len() as int);
            proof {
                if rest.len() == 0 {
                    assert(false);
                }
                assert(rest[0] == es[k]);
            }
            let name = string_at(self.data, self.tape.get(j).ptr());
            if name.eq_str(key) {
                proof {
                    lemma_lookup_skip(es, key@, k);
                }
                return Some(NbtTag { data: self.data, tape: self.tape, index: j + 1, model: Ghost(es[k].1) });
            }
            let next = j + 1 + span_at(self.tape, j + 1);
            proof {
                assert(rest.drop_first() =~= es.subrange(k + 1, es.len() as int));
                k = k + 1;
            }
            j = next;
        }
        proof {
            let rest = es.subrange(k, es.len() as int);
            if rest.len() > 0 {
                assert(false);
            }
            lemma_lookup_skip(es, key@, k);
        }
        None
    }

    /// The first tag with the given name.
    pub fn get(&self, name: &str) -> (r: Option<NbtTag<'a, 'tape>>)
        requires
            self.wf(),
        ensures
            match lookup(self@, mutf8_of_str(name)) {
                Some(m) => r matches Some(t) && t@ == m && t.wf(),
                None => r is None,
            },
    {
        let key = Mutf8Str::from_str(name);
        self.find(&key.as_str())
    }

    /// Returns whether there is a tag with the given name.
    pub fn contains(&self, name: &str) -> (r: bool)
        requires
            self.wf(),
        ensures
            r == has_key(self@, mutf8_of_str(name)),
    {
        proof {
            lemma_lookup_has_key(self@, mutf8_of_str(name));
        }
        self.get(name).is_some()
    }

    pub fn byte(&self, name: &str) -> (r: Option<i8>)
        requires
            self.wf(),
        ensures
            r == (match lookup(self@, mutf8_of_str(name)) { Some(TagModel::Byte(v)) => Some(v), _ => None::<i8> }),
    {
        match self.get(name) {
            Some(t) => t.byte(),
            None => None,
        }
    }

    pub fn short(&self, name: &str) -> (r: Option<i16>)
        requires
            self.wf(),
        ensures
            r == (match lookup(self@, mutf8_of_str(name)) { Some(TagModel::Short(v)) => Some(v), _ => None::<i16> }),
    {
        match self.get(name) {
            Some(t) => t.short(),
            None => None,
        }
    }

    pub fn int_value(&self, name: &str) -> (r: Option<i32>)
        requires
            self.wf(),
        ensures
            r == (match lookup(self@, mutf8_of_str(name)) { Some(TagModel::Int(v)) => Some(v), _ => None::<i32> }),
    {
        match self.get(name) {
            Some(t) => t.int_value(),
            None => None,
        }
    }

    pub fn long(&self, name: &str) -> (r: Option<i64>)
        requires
            self.wf(),
        ensures
            r == (match lookup(self@, mutf8_of_str(name)) { Some(TagModel::Long(v)) => Some(v), _ => None::<i64> }),
    {
        match self.get(name) {
            Some(t) => t.long(),
            None => None,
        }
    }

    /// The IEEE-754 bits of the float tag with the given name.
    pub fn float_bits(&self, name: &str) -> (r: Option<u32>)
        requires
            self.wf(),
        ensures
            r == (match lookup(self@, mutf8_of_str(name)) { Some(TagModel::Float(v)) => Some(v), _ => None::<u32> }),
    {
        match self.get(name) {
            Some(t) => t.float_bits(),
            None => None,
        }
    }

    /// The IEEE-754 bits of the double tag with the given name.
    pub fn double_bits(&self, name: &str) -> (r: Option<u64>)
        requires
            self.wf(),
        ensures
            r == (match lookup(self@, mutf8_of_str(name)) { Some(TagModel::Double(v)) => Some(v), _ => None::<u64> }),
    {
        match self.get(name) {
            Some(t) => t.double_bits(),
            None => None,
        }
    }

    pub fn byte_array(&self, name: &str) -> (r: Option<&'a [u8]>)
        requires
            self.wf(),
        ensures
            match lookup(self@, mutf8_of_str(name)) {
                Some(TagModel::ByteArray(a)) => r matches Some(x) && x@ == a,
                _ => r is None,
            },
    {
        match self.get(name) {
            Some(t) => t.byte_array(),
            None => None,
        }
    }

    pub fn string(&self, name: &str) -> (r: Option<Mutf8Str<'a>>)
        requires
            self.wf(),
        ensures
            match lookup(self@, mutf8_of_str(name)) {
                Some(TagModel::String(a)) => r matches Some(x) && x@ == a,
                _ => r is None,
            },
    {
        match self.get(name) {
            Some(t) => t.string(),
            None => None,
        }
    }

    pub fn list(&self, name: &str) -> (r: Option<NbtList<'a, 'tape>>)
        requires
            self.wf(),
        ensures
            match lookup(self@, mutf8_of_str(name)) {
                Some(TagModel::List(l)) => r matches Some(x) && x@ == l && x.wf(),
                _ => r is None,
            },
    {
        match self.get(name) {
            Some(t) => t.list(),
            None => None,
        }
    }

    pub fn compound(&self, name: &str) -> (r: Option<NbtCompound<'a, 'tape>>)
        requires
            self.wf(),
        ensures
            match lookup(self@, mutf8_of_str(name)) {
                Some(TagModel::Compound(es)) => r matches Some(x) && x@ == es && x.wf(),
                _ => r is None,
            },
    {
        match self.get(name) {
            Some(t) => t.compound(),
            None => None,
        }
    }

    pub fn int_array(&self, name: &str) -> (r: Option<Vec<i32>>)
        requires
            self.wf(),
        ensures
            match lookup(self@, mutf8_of_str(name)) {
                Some(TagModel::IntArray(a)) => r matches Some(x) && x@ == a,
                _ => r is None,
            },
    {
        match self.get(name) {
            Some(t) => t.int_array(),
            None => None,
        }
    }

    pub fn long_array(&self, name: &str) -> (r: Option<Vec<i64>>)
        requires
            self.wf(),
        ensures
            match lookup(self@, mutf8_of_str(name)) {
                Some(TagModel::LongArray(a)) => r matches Some(x) && x@ == a,
                _ => r is None,
            },
    {
        match self.get(name) {
            Some(t) => t.long_array(),
            None => None,
        }
    }

    /// An iterator over the names and tags, in order.
    pub fn iter(&self) -> (r: NbtCompoundIter<'a, 'tape>)
        requires
            self.wf(),
        ensures
            r@ == self@,
            r.wf(),
    {
        let stop = self.stop();
        NbtCompoundIter {
            data: self.data,
            tape: self.tape,
            current: self.index + 1,
            stop,
            model: Ghost(self@),
        }
    }

    /// The names and tags, in order.
    fn entries(&self) -> (r: Vec<(Mutf8Str<'a>, NbtTag<'a, 'tape>)>)
        requires
            self.wf(),
        ensures
            r@.len() == self@.len(),
            forall|i: int| 0 <= i < r@.len() ==> {
                &&& #[trigger] r@[i].0@ == self@[i].0
                &&& r@[i].1@ == self@[i].1
                &&& r@[i].1.wf()
            },
    {
        let stop = self.stop();
        let ghost es = self@;
        let mut out: Vec<(Mutf8Str<'a>, NbtTag<'a, 'tape>)> = Vec::new();
        let mut j: usize = self.index + 1;
        assert(es.subrange(0, es.len() as int) =~= es);
        while j < stop
            invariant
                self.wf(),
                es == self@,
                stop <= self.tape@.len(),
                0 <= out@.len() <= es.len(),
                tape_entries(self.tape@, self.data@, j as int, stop as int, es.subrange(out@.len() as int, es.len() as int)),
                forall|i: int| 0 <= i < out@.len() ==> {
                    &&& #[trigger] out@[i].0@ == es[i].0
                    &&& out@[i].1@ == es[i].1
                    &&& out@[i].1.wf()
                    &&& out@[i].1.data == self.data
                    &&& out@[i].1.tape == self.tape
                },
            decreases stop - j,
        {
            let ghost k = out@.len() as int;
            let ghost rest = es.subrange(k, es.len() as int);
            proof {
                if rest.len() == 0 {
                    assert(false);
                }
                assert(rest[0] == es[k]);
            }
            let name = string_at(self.data, self.tape.get(j).ptr());
            let tag = NbtTag { data: self.data, tape: self.tape, index: j + 1, model: Ghost(es[k].1) };
            out.push((name, tag));
            let next = j + 1 + span_at(self.tape, j + 1);
            proof {
                assert(rest.drop_first() =~= es.subrange(k + 1, es.len() as int));
            }
            j = next;
        }
        proof {
            let rest = es.subrange(out@.len() as int, es.len() as int);
            if rest.len() > 0 {
                assert(false);
            }
        }
        out
    }

    /// Writes the named tags and the end tag.
    pub fn write(&self, data: &mut Vec<u8>)
        requires
            self.wf(),
        ensures
            final(data)@ == old(data)@ + crate::model::ser_compound(self@),
        decreases self@,
    {
        let ghost start = data@;
        let entries = self.entries();
        let mut i: usize = 0;
        assert(self@.take(0) =~= Seq::<(Seq<u8>, TagModel)>::empty());
        assert(data@ =~= start + crate::model::ser_entries(self@.take(0)));
        while i < entries.len()
            invariant
                self.wf(),
                i <= entries@.len(),
                entries@.len() == self@.len(),
                forall|j: int| 0 <= j < entries@.len() ==> {
                    &&& #[trigger] entries@[j].0@ == self@[j].0
                    &&& entries@[j].1@ == self@[j].1
                    &&& entries@[j].1.wf()
                },
                data@ == start + crate::model::ser_entries(self@.take(i as int)),
            decreases entries@.len() - i,
        {
            let ghost m = self@[i as int].1;
            proof {
                assert(entries@[i as int].0@ == self@[i as int].0);
                assert(entries@[i as int].1@ == m);
                assert(decreases_to!(self@ => self@[i as int]));
                assert(decreases_to!(self@ => m));
                crate::model::lemma_ser_entries_take(self@, i as int);
            }
            data.push(entries[i].1.id());
            crate::common::write_string(data, entries[i].0);
            entries[i].1.write(data);
            i = i + 1;
            assert(data@ =~= start + crate::model::ser_entries(self@.take(i as int)));
        }
        data.push(END_ID);
        assert(self@.take(i as int) =~= self@);
        assert(data@ =~= start + crate::model::ser_compound(self@));
    }

    /// An owned copy of the compound.
    pub fn to_owned(&self) -> (r: crate::owned::CompoundTag)
        requires
            self.wf(),
        ensures
            r@ == self@,
        decreases self@,
    {
        let entries = self.entries();
        let mut values: Vec<(crate::mutf8::Mutf8String, crate::owned::Tag)> = Vec::new();
        let mut i: usize = 0;
        assert(crate::owned::entries_model(values@) =~= self@.subrange(0, 0));
        while i < entries.len()
            invariant
                self.wf(),
                i <= entries@.len(),
                entries@.len() == self@.len(),
                forall|j: int| 0 <= j < entries@.len() ==> {
                    &&& #[trigger] entries@[j].0@ == self@[j].0
                    &&& entries@[j].1@ == self@[j].1
                    &&& entries@[j].1.wf()
                },
                crate::owned::entries_model(values@) == self@.subrange(0, i as int),
            decreases entries@.len() - i,
        {
            let name = entries[i].0.to_owned();
            let ghost m = self@[i as int].1;
            proof {
                assert(entries@[i as int].1@ == m);
                assert(decreases_to!(self@ => self@[i as int]));
                assert(decreases_to!(self@ => m));
            }
            let tag = entries[i].1.to_owned();
            let ghost before = values@;
            values.push((name, tag));
            proof {
                assert(values@.drop_last() =~= before);
                assert(self@.subrange(0, i + 1) =~= self@.subrange(0, i as int).push(self@[i as int]));
            }
            i = i + 1;
        }
        proof {
            assert(self@.subrange(0, i as int) =~= self@);
        }
        crate::owned::CompoundTag { values }
    }

    /// Returns the number of tags directly in this compound.
    pub fn len(&self) -> (r: usize)
        requires
            self.wf(),
        ensures
            r == self@.len(),
    {
        self.entries().len()
    }

    pub fn is_empty(&self) -> (r: bool)
        requires
            self.wf(),
        ensures
            r <==> self@.len() == 0,
    {
        self.stop() == self.index + 1
    }

    /// The names of the tags, in order.
    pub fn keys(&self) -> (r: Vec<Mutf8Str<'a>>)
        requires
            self.wf(),
        ensures
            r@.len() == self@.len(),
            forall|i: int| 0 <= i < r@.len() ==> #[trigger] r@[i]@ == self@[i].0,
    {
        let entries = self.entries();
        let mut out: Vec<Mutf8Str<'a>> = Vec::new();
        let mut i: usize = 0;
        while i < entries.len()
            invariant
                i <= entries@.len(),
                entries@.len() == self@.len(),
                forall|j: int| 0 <= j < entries@.len() ==> #[trigger] entries@[j].0@ == self@[j].0,
                out@.len() == i,
                forall|j: int| 0 <= j < i ==> #[trigger] out@[j]@ == self@[j].0,
            decreases entries@.len() - i,
        {
            out.push(entries[i].0);
            i = i + 1;
        }
        out
    }
}

} // verus!
