//! Owned compounds: named tags in order.

use vstd::prelude::*;

use super::{entries_model, lemma_entries_model, tag_model, ListTag, Tag};
use super::format::{lemma_owned_payload_bounds, owned_parse_entries};
use crate::common::{read_string, write_string, END_ID, MAX_DEPTH};
use crate::error::Error;
use crate::model::{
    lemma_payload_bounds, lemma_prepend_push, lemma_ser_entries_take, parse_entries, prepend, ser_compound, ser_entries,
    TagModel,
};
use crate::model::{has_key, lemma_lookup_has_key, lemma_lookup_skip, lookup};
use crate::mutf8::{mutf8_of_str, Mutf8Str, Mutf8String};
use crate::reader::{lemma_rest_advance, parsed_as, Reader};

verus! {

/// A list of named tags. The order of the tags is preserved.
#[derive(Debug, PartialEq)]
pub struct CompoundTag {
    pub values: Vec<(Mutf8String, Tag)>,
}

impl View for CompoundTag {
    type V = Seq<(Seq<u8>, TagModel)>;

    open spec fn view(&self) -> Seq<(Seq<u8>, TagModel)> {
        entries_model(self.values@)
    }
}

/// Changing one named tag changes only that entry of the model.
proof fn lemma_entries_model_update(v: Seq<(Mutf8String, Tag)>, i: int)
    requires
        0 <= i < v.len(),
    ensures
        forall|x: (Mutf8String, Tag)| #[trigger] entries_model(v.update(i, x)) == entries_model(v).update(
            i,
            (x.0@, tag_model(x.1)),
        ),
{
    assert forall|x: (Mutf8String, Tag)| #[trigger] entries_model(v.update(i, x)) == entries_model(v).update(
        i,
        (x.0@, tag_model(x.1)),
    ) by {
        lemma_entries_model(v);
        lemma_entries_model(v.update(i, x));
        assert(entries_model(v.update(i, x)) =~= entries_model(v).update(i, (x.0@, tag_model(x.1))));
    }
}

impl CompoundTag {
    /// Reads the named tags of a compound at `depth` (the root is at depth
    /// 0), up to and including its end tag; a compound deeper than
    /// `MAX_DEPTH` is refused before anything is read.
    #[verifier::rlimit(40)]
    pub fn new(data: &mut Reader<'_>, depth: usize) -> (r: Result<CompoundTag, Error>)
        requires
            old(data).wf(),
        ensures
            final(data).wf(),
            final(data).data == old(data).data,
            parsed_as(r, owned_parse_entries(old(data).rest(), depth as int), *old(data), *final(data)),
        decreases old(data).rest().len(), 0nat,
    {
        if depth > MAX_DEPTH {
            return Err(Error::MaxDepthExceeded);
        }
        let ghost start = *data;
        let ghost s0 = data.rest();
        let mut values: Vec<(Mutf8String, Tag)> = Vec::new();
        loop
            invariant_except_break
                start == *old(data),
                s0 == start.rest(),
                start.wf(),
                data.wf(),
                data.data@ == start.data@,
                start.cur <= data.cur,
                depth <= MAX_DEPTH,
                owned_parse_entries(s0, depth as int) == prepend(
                    entries_model(values@),
                    data.cur - start.cur,
                    owned_parse_entries(data.rest(), depth as int),
                ),
            ensures
                data.wf(),
                data.data@ == start.data@,
                start.cur <= data.cur,
                owned_parse_entries(s0, depth as int) == Ok::<(Seq<(Seq<u8>, TagModel)>, int), Error>(
                    (entries_model(values@), data.cur - start.cur),
                ),
            decreases data.data@.len() - data.cur,
        {
            let ghost before = *data;
            let tag_type = data.read_u8()?;
            if tag_type == END_ID {
                proof {
                    assert(entries_model(values@) + seq![] =~= entries_model(values@));
                }
                break;
            }
            let ghost after_type = *data;
            proof {
                lemma_rest_advance(before, after_type, 1);
            }
            let name = read_string(data)?;
            let ghost after_name = *data;
            proof {
                lemma_rest_advance(after_type, after_name, after_name.cur - after_type.cur);
                assert(after_type.rest() == before.rest().subrange(1, before.rest().len() as int));
            }
            let ghost k1 = after_name.cur - after_type.cur;
            let ghost s1 = before.rest().subrange(1 + k1, before.rest().len() as int);
            proof {
                assert(s1 =~= after_name.rest());
                lemma_owned_payload_bounds(s1, depth as int, tag_type);
            }
            let tag = Tag::read_with_type(data, tag_type, depth)?;
            proof {
                lemma_rest_advance(after_name, *data, data.cur - after_name.cur);
                let k2 = data.cur - after_name.cur;
                assert(data.rest() == s1.subrange(k2, s1.len() as int));
                lemma_prepend_push(
                    entries_model(values@),
                    before.cur - start.cur,
                    (name@, tag@),
                    1 + k1 + k2,
                    owned_parse_entries(data.rest(), depth as int),
                );
            }
            let ghost vals_before = values@;
            let ghost entry = (name@, tag@);
            values.push((name.to_owned(), tag));
            proof {
                assert(values@.drop_last() =~= vals_before);
                assert(entries_model(values@) == entries_model(vals_before).push(entry));
            }
        }
        Ok(CompoundTag { values })
    }

    /// Writes the named tags and the end tag.
    pub fn write(&self, data: &mut Vec<u8>)
        ensures
            final(data)@ == old(data)@ + ser_compound(self@),
        decreases self,
    {
        let ghost start = data@;
        let ghost es = self@;
        proof {
            lemma_entries_model(self.values@);
        }
        let mut i: usize = 0;
        while i < self.values.len()
            invariant
                i <= self.values@.len(),
                es == self@,
                es.len() == self.values@.len(),
                forall|j: int| 0 <= j < self.values@.len() ==> #[trigger] es[j] == (self.values@[j].0@, self.values@[j].1@),
                data@ == start + ser_entries(es.take(i as int)),
            decreases self.values@.len() - i,
        {
            let entry = &self.values[i];
            data.push(entry.1.id());
            write_string(data, entry.0.as_str());
            entry.1.write(data);
            proof {
                lemma_ser_entries_take(es, i as int);
                assert(es[i as int] == (entry.0@, entry.1@));
            }
            i = i + 1;
            assert(data@ =~= start + ser_entries(es.take(i as int)));
        }
        data.push(END_ID);
        assert(es.take(i as int) =~= es);
        assert(data@ =~= start + ser_compound(es));
    }
}

impl CompoundTag {
    /// An empty compound.
    pub fn empty() -> (r: CompoundTag)
        ensures
            r@ == Seq::<(Seq<u8>, TagModel)>::empty(),
    {
        CompoundTag { values: Vec::new() }
    }

    /// The index of the first tag named `key`, if any.
    fn find(&self, key: &Mutf8Str) -> (r: Option<usize>)
        ensures
            match r {
                Some(i) => {
                    &&& i < self.values@.len()
                    &&& self@[i as int].0 == key@
                    &&& lookup(self@, key@) == Some(self@[i as int].1)
                    &&& forall|j: int| 0 <= j < i ==> #[trigger] self@[j].0 != key@
                },
                None => lookup(self@, key@) is None && !has_key(self@, key@),
            },
    {
        proof {
            lemma_entries_model(self.values@);
            lemma_lookup_has_key(self@, key@);
        }
        let mut i: usize = 0;
        while i < self.values.len()
            invariant
                i <= self.values@.len(),
                self@.len() == self.values@.len(),
                forall|k: int| 0 <= k < self.values@.len() ==> #[trigger] self@[k] == (self.values@[k].0@, self.values@[k].1@),
                forall|j: int| 0 <= j < i ==> #[trigger] self@[j].0 != key@,
            decreases self.values@.len() - i,
        {
            if self.values[i].0.as_str().eq_str(key) {
                proof {
                    lemma_lookup_skip(self@, key@, i as int);
                }
                return Some(i);
            }
            i = i + 1;
        }
        proof {
            lemma_lookup_skip(self@, key@, i as int);
        }
        None
    }

    /// The first tag with the given name.
    pub fn get(&self, name: &str) -> (r: Option<&Tag>)
        ensures
            match lookup(self@, mutf8_of_str(name)) {
                Some(t) => r matches Some(x) && x@ == t,
                None => r is None,
            },
    {
        let key = Mutf8Str::from_str(name);
        match self.find(&key.as_str()) {
            Some(i) => {
                proof {
                    lemma_entries_model(self.values@);
                }
                Some(&self.values[i].1)
            },
            None => None,
        }
    }

    /// The value of a compound whose only tag has an empty name: such a
    /// compound stands for that value when it is shown as a plain data
    /// structure (lists of mixed types are written this way).
    pub fn lone_unnamed_value(&self) -> (r: Option<&Tag>)
        ensures
            self@.len() == 1 ==> match lookup(self@, mutf8_of_str("")) {
                Some(t) => r matches Some(x) && x@ == t,
                None => r is None,
            },
            self@.len() != 1 ==> r is None,
    {
        proof {
            lemma_entries_model(self.values@);
        }
        if self.values.len() == 1 {
            self.get("")
        } else {
            None
        }
    }

    /// The tag at index `i`, to change in place.
    fn value_mut(&mut self, i: usize) -> (r: &mut Tag)
        requires
            i < old(self).values@.len(),
        ensures
            *r == old(self).values@[i as int].1,
            final(self).values@ == old(self).values@.update(
                i as int,
                (old(self).values@[i as int].0, *final(r)),
            ),
    {
        &mut self.values[i].1
    }

    /// The first tag with the given name, to change in place; the compound
    /// then holds the changed tag at that tag's place.
    pub fn get_mut(&mut self, name: &str) -> (r: Option<&mut Tag>)
        ensures
            match lookup(old(self)@, mutf8_of_str(name)) {
                Some(t) => {
                    &&& r is Some
                    &&& (*r->Some_0)@ == t
                    &&& exists|i: int|
                        0 <= i < old(self)@.len() && old(self)@[i].0 == mutf8_of_str(name)
                        && (forall|j: int| 0 <= j < i ==> #[trigger] old(self)@[j].0 != mutf8_of_str(name))
                        && final(self)@ == old(self)@.update(i, (old(self)@[i].0, (*final(r->Some_0))@))
                },
                None => r is None && final(self)@ == old(self)@,
            },
    {
        let key = Mutf8Str::from_str(name);
        match self.find(&key.as_str()) {
            Some(i) => {
                proof {
                    lemma_entries_model(self.values@);
                    lemma_entries_model_update(self.values@, i as int);
                }
                let v = self.value_mut(i);
                Some(v)
            },
            None => None,
        }
    }

    /// The byte named `name` (the first tag with that name),
    /// to change in place; the compound then holds the changed value there.
    pub fn byte_mut(&mut self, name: &str) -> (r: Option<&mut i8>)
        ensures
            match lookup(old(self)@, mutf8_of_str(name)) {
                Some(TagModel::Byte(v)) => {
                    &&& r is Some
                    &&& *r->Some_0 == v
                    &&& exists|i: int|
                        0 <= i < old(self)@.len() && old(self)@[i].0 == mutf8_of_str(name)
                        && (forall|j: int| 0 <= j < i ==> #[trigger] old(self)@[j].0 != mutf8_of_str(name))
                        && final(self)@ == old(self)@.update(i, (old(self)@[i].0, TagModel::Byte(*final(r->Some_0))))
                },
                _ => r is None && final(self)@ == old(self)@,
            },
    {
        let key = Mutf8Str::from_str(name);
        match self.find(&key.as_str()) {
            Some(i) => {
                proof {
                    lemma_entries_model(self.values@);
                    lemma_entries_model_update(self.values@, i as int);
                    assert(self@.update(i as int, self@[i as int]) =~= self@);
                }
                let t = self.value_mut(i);
                t.byte_mut()
            },
            None => None,
        }
    }

    /// The short named `name` (the first tag with that name),
    /// to change in place; the compound then holds the changed value there.
    pub fn short_mut(&mut self, name: &str) -> (r: Option<&mut i16>)
        ensures
            match lookup(old(self)@, mutf8_of_str(name)) {
                Some(TagModel::Short(v)) => {
                    &&& r is Some
                    &&& *r->Some_0 == v
                    &&& exists|i: int|
                        0 <= i < old(self)@.len() && old(self)@[i].0 == mutf8_of_str(name)
                        && (forall|j: int| 0 <= j < i ==> #[trigger] old(self)@[j].0 != mutf8_of_str(name))
                        && final(self)@ == old(self)@.update(i, (old(self)@[i].0, TagModel::Short(*final(r->Some_0))))
                },
                _ => r is None && final(self)@ == old(self)@,
            },
    {
        let key = Mutf8Str::from_str(name);
        match self.find(&key.as_str()) {
            Some(i) => {
                proof {
                    lemma_entries_model(self.values@);
                    lemma_entries_model_update(self.values@, i as int);
                    assert(self@.update(i as int, self@[i as int]) =~= self@);
                }
                let t = self.value_mut(i);
                t.short_mut()
            },
            None => None,
        }
    }

    /// The int named `name` (the first tag with that name),
    /// to change in place; the compound then holds the changed value there.
    pub fn int_mut(&mut self, name: &str) -> (r: Option<&mut i32>)
        ensures
            match lookup(old(self)@, mutf8_of_str(name)) {
                Some(TagModel::Int(v)) => {
                    &&& r is Some
                    &&& *r->Some_0 == v
                    &&& exists|i: int|
                        0 <= i < old(self)@.len() && old(self)@[i].0 == mutf8_of_str(name)
                        && (forall|j: int| 0 <= j < i ==> #[trigger] old(self)@[j].0 != mutf8_of_str(name))
                        && final(self)@ == old(self)@.update(i, (old(self)@[i].0, TagModel::Int(*final(r->Some_0))))
                },
                _ => r is None && final(self)@ == old(self)@,
            },
    {
        let key = Mutf8Str::from_str(name);
        match self.find(&key.as_str()) {
            Some(i) => {
                proof {
                    lemma_entries_model(self.values@);
                    lemma_entries_model_update(self.values@, i as int);
                    assert(self@.update(i as int, self@[i as int]) =~= self@);
                }
                let t = self.value_mut(i);
                t.int_mut()
            },
            None => None,
        }
    }

    /// The long named `name` (the first tag with that name),
    /// to change in place; the compound then holds the changed value there.
    pub fn long_mut(&mut self, name: &str) -> (r: Option<&mut i64>)
        ensures
            match lookup(old(self)@, mutf8_of_str(name)) {
                Some(TagModel::Long(v)) => {
                    &&& r is Some
                    &&& *r->Some_0 == v
                    &&& exists|i: int|
                        0 <= i < old(self)@.len() && old(self)@[i].0 == mutf8_of_str(name)
                        && (forall|j: int| 0 <= j < i ==> #[trigger] old(self)@[j].0 != mutf8_of_str(name))
                        && final(self)@ == old(self)@.update(i, (old(self)@[i].0, TagModel::Long(*final(r->Some_0))))
                },
                _ => r is None && final(self)@ == old(self)@,
            },
    {
        let key = Mutf8Str::from_str(name);
        match self.find(&key.as_str()) {
            Some(i) => {
                proof {
                    lemma_entries_model(self.values@);
                    lemma_entries_model_update(self.values@, i as int);
                    assert(self@.update(i as int, self@[i as int]) =~= self@);
                }
                let t = self.value_mut(i);
                t.long_mut()
            },
            None => None,
        }
    }

    /// The IEEE-754 bits of the float named `name` (the first tag with that name),
    /// to change in place; the compound then holds the changed value there.
    pub fn float_bits_mut(&mut self, name: &str) -> (r: Option<&mut u32>)
        ensures
            match lookup(old(self)@, mutf8_of_str(name)) {
                Some(TagModel::Float(v)) => {
                    &&& r is Some
                    &&& *r->Some_0 == v
                    &&& exists|i: int|
                        0 <= i < old(self)@.len() && old(self)@[i].0 == mutf8_of_str(name)
                        && (forall|j: int| 0 <= j < i ==> #[trigger] old(self)@[j].0 != mutf8_of_str(name))
                        && final(self)@ == old(self)@.update(i, (old(self)@[i].0, TagModel::Float(*final(r->Some_0))))
                },
                _ => r is None && final(self)@ == old(self)@,
            },
    {
        let key = Mutf8Str::from_str(name);
        match self.find(&key.as_str()) {
            Some(i) => {
                proof {
                    lemma_entries_model(self.values@);
                    lemma_entries_model_update(self.values@, i as int);
                    assert(self@.update(i as int, self@[i as int]) =~= self@);
                }
                let t = self.value_mut(i);
                t.float_bits_mut()
            },
            None => None,
        }
    }

    /// The IEEE-754 bits of the double named `name` (the first tag with that name),
    /// to change in place; the compound then holds the changed value there.
    pub fn double_bits_mut(&mut self, name: &str) -> (r: Option<&mut u64>)
        ensures
            match lookup(old(self)@, mutf8_of_str(name)) {
                Some(TagModel::Double(v)) => {
                    &&& r is Some
                    &&& *r->Some_0 == v
                    &&& exists|i: int|
                        0 <= i < old(self)@.len() && old(self)@[i].0 == mutf8_of_str(name)
                        && (forall|j: int| 0 <= j < i ==> #[trigger] old(self)@[j].0 != mutf8_of_str(name))
                        && final(self)@ == old(self)@.update(i, (old(self)@[i].0, TagModel::Double(*final(r->Some_0))))
                },
                _ => r is None && final(self)@ == old(self)@,
            },
    {
        let key = Mutf8Str::from_str(name);
        match self.find(&key.as_str()) {
            Some(i) => {
                proof {
                    lemma_entries_model(self.values@);
                    lemma_entries_model_update(self.values@, i as int);
                    assert(self@.update(i as int, self@[i as int]) =~= self@);
                }
                let t = self.value_mut(i);
                t.double_bits_mut()
            },
            None => None,
        }
    }

    /// The byte array named `name` (the first tag with that name),
    /// to change in place; the compound then holds the changed value there.
    pub fn byte_array_mut(&mut self, name: &str) -> (r: Option<&mut Vec<u8>>)
        ensures
            match lookup(old(self)@, mutf8_of_str(name)) {
                Some(TagModel::ByteArray(v)) => {
                    &&& r is Some
                    &&& (*r->Some_0)@ == v
                    &&& exists|i: int|
                        0 <= i < old(self)@.len() && old(self)@[i].0 == mutf8_of_str(name)
                        && (forall|j: int| 0 <= j < i ==> #[trigger] old(self)@[j].0 != mutf8_of_str(name))
                        && final(self)@ == old(self)@.update(i, (old(self)@[i].0, TagModel::ByteArray((*final(r->Some_0))@)))
                },
                _ => r is None && final(self)@ == old(self)@,
            },
    {
        let key = Mutf8Str::from_str(name);
        match self.find(&key.as_str()) {
            Some(i) => {
                proof {
                    lemma_entries_model(self.values@);
                    lemma_entries_model_update(self.values@, i as int);
                    assert(self@.update(i as int, self@[i as int]) =~= self@);
                }
                let t = self.value_mut(i);
                t.byte_array_mut()
            },
            None => None,
        }
    }

    /// The string named `name` (the first tag with that name),
    /// to change in place; the compound then holds the changed value there.
    pub fn string_mut(&mut self, name: &str) -> (r: Option<&mut Mutf8String>)
        ensures
            match lookup(old(self)@, mutf8_of_str(name)) {
                Some(TagModel::String(v)) => {
                    &&& r is Some
                    &&& (*r->Some_0)@ == v
                    &&& exists|i: int|
                        0 <= i < old(self)@.len() && old(self)@[i].0 == mutf8_of_str(name)
                        && (forall|j: int| 0 <= j < i ==> #[trigger] old(self)@[j].0 != mutf8_of_str(name))
                        && final(self)@ == old(self)@.update(i, (old(self)@[i].0, TagModel::String((*final(r->Some_0))@)))
                },
                _ => r is None && final(self)@ == old(self)@,
            },
    {
        let key = Mutf8Str::from_str(name);
        match self.find(&key.as_str()) {
            Some(i) => {
                proof {
                    lemma_entries_model(self.values@);
                    lemma_entries_model_update(self.values@, i as int);
                    assert(self@.update(i as int, self@[i as int]) =~= self@);
                }
                let t = self.value_mut(i);
                t.string_mut()
            },
            None => None,
        }
    }

    /// The list named `name` (the first tag with that name),
    /// to change in place; the compound then holds the changed value there.
    pub fn list_mut(&mut self, name: &str) -> (r: Option<&mut ListTag>)
        ensures
            match lookup(old(self)@, mutf8_of_str(name)) {
                Some(TagModel::List(v)) => {
                    &&& r is Some
                    &&& (*r->Some_0)@ == v
                    &&& exists|i: int|
                        0 <= i < old(self)@.len() && old(self)@[i].0 == mutf8_of_str(name)
                        && (forall|j: int| 0 <= j < i ==> #[trigger] old(self)@[j].0 != mutf8_of_str(name))
                        && final(self)@ == old(self)@.update(i, (old(self)@[i].0, TagModel::List((*final(r->Some_0))@)))
                },
                _ => r is None && final(self)@ == old(self)@,
            },
    {
        let key = Mutf8Str::from_str(name);
        match self.find(&key.as_str()) {
            Some(i) => {
                proof {
                    lemma_entries_model(self.values@);
                    lemma_entries_model_update(self.values@, i as int);
                    assert(self@.update(i as int, self@[i as int]) =~= self@);
                }
                let t = self.value_mut(i);
                t.list_mut()
            },
            None => None,
        }
    }

    /// The compound named `name` (the first tag with that name),
    /// to change in place; the compound then holds the changed value there.
    pub fn compound_mut(&mut self, name: &str) -> (r: Option<&mut CompoundTag>)
        ensures
            match lookup(old(self)@, mutf8_of_str(name)) {
                Some(TagModel::Compound(v)) => {
                    &&& r is Some
                    &&& (*r->Some_0)@ == v
                    &&& exists|i: int|
                        0 <= i < old(self)@.len() && old(self)@[i].0 == mutf8_of_str(name)
                        && (forall|j: int| 0 <= j < i ==> #[trigger] old(self)@[j].0 != mutf8_of_str(name))
                        && final(self)@ == old(self)@.update(i, (old(self)@[i].0, TagModel::Compound((*final(r->Some_0))@)))
                },
                _ => r is None && final(self)@ == old(self)@,
            },
    {
        let key = Mutf8Str::from_str(name);
        match self.find(&key.as_str()) {
            Some(i) => {
                proof {
                    lemma_entries_model(self.values@);
                    lemma_entries_model_update(self.values@, i as int);
                    assert(self@.update(i as int, self@[i as int]) =~= self@);
                }
                let t = self.value_mut(i);
                t.compound_mut()
            },
            None => None,
        }
    }

    /// The int array named `name` (the first tag with that name),
    /// to change in place; the compound then holds the changed value there.
    pub fn int_array_mut(&mut self, name: &str) -> (r: Option<&mut Vec<i32>>)
        ensures
            match lookup(old(self)@, mutf8_of_str(name)) {
                Some(TagModel::IntArray(v)) => {
                    &&& r is Some
                    &&& (*r->Some_0)@ == v
                    &&& exists|i: int|
                        0 <= i < old(self)@.len() && old(self)@[i].0 == mutf8_of_str(name)
                        && (forall|j: int| 0 <= j < i ==> #[trigger] old(self)@[j].0 != mutf8_of_str(name))
                        && final(self)@ == old(self)@.update(i, (old(self)@[i].0, TagModel::IntArray((*final(r->Some_0))@)))
                },
                _ => r is None && final(self)@ == old(self)@,
            },
    {
        let key = Mutf8Str::from_str(name);
        match self.find(&key.as_str()) {
            Some(i) => {
                proof {
                    lemma_entries_model(self.values@);
                    lemma_entries_model_update(self.values@, i as int);
                    assert(self@.update(i as int, self@[i as int]) =~= self@);
                }
                let t = self.value_mut(i);
                t.int_array_mut()
            },
            None => None,
        }
    }

    /// The long array named `name` (the first tag with that name),
    /// to change in place; the compound then holds the changed value there.
    pub fn long_array_mut(&mut self, name: &str) -> (r: Option<&mut Vec<i64>>)
        ensures
            match lookup(old(self)@, mutf8_of_str(name)) {
                Some(TagModel::LongArray(v)) => {
                    &&& r is Some
                    &&& (*r->Some_0)@ == v
                    &&& exists|i: int|
                        0 <= i < old(self)@.len() && old(self)@[i].0 == mutf8_of_str(name)
                        && (forall|j: int| 0 <= j < i ==> #[trigger] old(self)@[j].0 != mutf8_of_str(name))
                        && final(self)@ == old(self)@.update(i, (old(self)@[i].0, TagModel::LongArray((*final(r->Some_0))@)))
                },
                _ => r is None && final(self)@ == old(self)@,
            },
    {
        let key = Mutf8Str::from_str(name);
        match self.find(&key.as_str()) {
            Some(i) => {
                proof {
                    lemma_entries_model(self.values@);
                    lemma_entries_model_update(self.values@, i as int);
                    assert(self@.update(i as int, self@[i as int]) =~= self@);
                }
                let t = self.value_mut(i);
                t.long_array_mut()
            },
            None => None,
        }
    }

    /// Returns whether there is a tag with the given name.
    pub fn contains(&self, name: &str) -> (r: bool)
        ensures
            r == has_key(self@, mutf8_of_str(name)),
    {
        let key = Mutf8Str::from_str(name);
        proof {
            lemma_lookup_has_key(self@, key@);
        }
        self.find(&key.as_str()).is_some()
    }

    pub fn byte(&self, name: &str) -> (r: Option<i8>)
        ensures
            r == (match lookup(self@, mutf8_of_str(name)) { Some(TagModel::Byte(v)) => Some(v), _ => None::<i8> }),
    {
        match self.get(name) {
            Some(t) => t.byte(),
            None => None,
        }
    }

    pub fn short(&self, name: &str) -> (r: Option<i16>)
        ensures
            r == (match lookup(self@, mutf8_of_str(name)) { Some(TagModel::Short(v)) => Some(v), _ => None::<i16> }),
    {
        match self.get(name) {
            Some(t) => t.short(),
            None => None,
        }
    }

    pub fn int_value(&self, name: &str) -> (r: Option<i32>)
        ensures
            r == (match lookup(self@, mutf8_of_str(name)) { Some(TagModel::Int(v)) => Some(v), _ => None::<i32> }),
    {
        match self.get(name) {
            Some(t) => t.int_value(),
            None => None,
        }
    }

    pub fn long(&self, name: &str) -> (r: Option<i64>)
        ensures
            r == (match lookup(self@, mutf8_of_str(name)) { Some(TagModel::Long(v)) => Some(v), _ => None::<i64> }),
    {
        match self.get(name) {
            Some(t) => t.long(),
            None => None,
        }
    }

    /// The IEEE-754 bits of the float tag with the given name.
    pub fn float_bits(&self, name: &str) -> (r: Option<u32>)
        ensures
            r == (match lookup(self@, mutf8_of_str(name)) { Some(TagModel::Float(v)) => Some(v), _ => None::<u32> }),
    {
        match self.get(name) {
            Some(t) => t.float_bits(),
            None => None,
        }
    }

    /// The IEEE-754 bits of the double tag with the given name.
    pub fn double_bits(&self, name: &str) -> (r: Option<u64>)
        ensures
            r == (match lookup(self@, mutf8_of_str(name)) { Some(TagModel::Double(v)) => Some(v), _ => None::<u64> }),
    {
        match self.get(name) {
            Some(t) => t.double_bits(),
            None => None,
        }
    }

    pub fn byte_array(&self, name: &str) -> (r: Option<&[u8]>)
        ensures
            match lookup(self@, mutf8_of_str(name)) {
                Some(TagModel::ByteArray(a)) => r matches Some(x) && x@ == a,
                _ => r is None,
            },
    {
        match self.get(name) {
            Some(t) => t.byte_array(),
            None => None,
        }
    }

    pub fn string(&self, name: &str) -> (r: Option<Mutf8Str<'_>>)
        ensures
            match lookup(self@, mutf8_of_str(name)) {
                Some(TagModel::String(a)) => r matches Some(x) && x@ == a,
                _ => r is None,
            },
    {
        match self.get(name) {
            Some(t) => t.string(),
            None => None,
        }
    }

    pub fn list(&self, name: &str) -> (r: Option<&ListTag>)
        ensures
            match lookup(self@, mutf8_of_str(name)) {
                Some(TagModel::List(l)) => r matches Some(x) && x@ == l,
                _ => r is None,
            },
    {
        match self.get(name) {
            Some(t) => t.list(),
            None => None,
        }
    }

    pub fn compound(&self, name: &str) -> (r: Option<&CompoundTag>)
        ensures
            match lookup(self@, mutf8_of_str(name)) {
                Some(TagModel::Compound(es)) => r matches Some(x) && x@ == es,
                _ => r is None,
            },
    {
        match self.get(name) {
            Some(t) => t.compound(),
            None => None,
        }
    }

    pub fn int_array(&self, name: &str) -> (r: Option<&[i32]>)
        ensures
            match lookup(self@, mutf8_of_str(name)) {
                Some(TagModel::IntArray(a)) => r matches Some(x) && x@ == a,
                _ => r is None,
            },
    {
        match self.get(name) {
            Some(t) => t.int_array(),
            None => None,
        }
    }

    pub fn long_array(&self, name: &str) -> (r: Option<&[i64]>)
        ensures
            match lookup(self@, mutf8_of_str(name)) {
                Some(TagModel::LongArray(a)) => r matches Some(x) && x@ == a,
                _ => r is None,
            },
    {
        match self.get(name) {
            Some(t) => t.long_array(),
            None => None,
        }
    }

    /// The number of named tags.
    pub fn len(&self) -> (r: usize)
        ensures
            r == self@.len(),
    {
        proof {
            lemma_entries_model(self.values@);
        }
        self.values.len()
    }

    pub fn is_empty(&self) -> (r: bool)
        ensures
            r <==> self@.len() == 0,
    {
        proof {
            lemma_entries_model(self.values@);
        }
        self.values.len() == 0
    }

    /// The names of the tags, in order.
    pub fn keys(&self) -> (r: Vec<Mutf8Str<'_>>)
        ensures
            r@.len() == self@.len(),
            forall|i: int| 0 <= i < r@.len() ==> #[trigger] r@[i]@ == self@[i].0,
    {
        proof {
            lemma_entries_model(self.values@);
        }
        let mut out: Vec<Mutf8Str<'_>> = Vec::new();
        let mut i: usize = 0;
        while i < self.values.len()
            invariant
                i <= self.values@.len(),
                self@.len() == self.values@.len(),
                forall|k: int| 0 <= k < self.values@.len() ==> #[trigger] self@[k] == (self.values@[k].0@, self.values@[k].1@),
                out@.len() == i,
                forall|j: int| 0 <= j < i ==> #[trigger] out@[j]@ == self@[j].0,
            decreases self.values@.len() - i,
        {
            out.push(self.values[i].0.as_str());
            i = i + 1;
        }
        out
    }

    /// The tags, in order.
    pub fn values(&self) -> (r: Vec<&Tag>)
        ensures
            r@.len() == self@.len(),
            forall|i: int| 0 <= i < r@.len() ==> (#[trigger] r@[i])@ == self@[i].1,
    {
        proof {
            lemma_entries_model(self.values@);
        }
        let mut out: Vec<&Tag> = Vec::new();
        let mut i: usize = 0;
        while i < self.values.len()
            invariant
                i <= self.values@.len(),
                self@.len() == self.values@.len(),
                forall|k: int| 0 <= k < self.values@.len() ==> #[trigger] self@[k] == (self.values@[k].0@, self.values@[k].1@),
                out@.len() == i,
                forall|j: int| 0 <= j < i ==> (#[trigger] out@[j])@ == self@[j].1,
            decreases self.values@.len() - i,
        {
            out.push(&self.values[i].1);
            i = i + 1;
        }
        out
    }

    /// The names and tags, in order.
    pub fn iter(&self) -> (r: Vec<(Mutf8Str<'_>, &Tag)>)
        ensures
            r@.len() == self@.len(),
            forall|i: int| 0 <= i < r@.len() ==> (#[trigger] r@[i]).0@ == self@[i].0 && r@[i].1@ == self@[i].1,
    {
        proof {
            lemma_entries_model(self.values@);
        }
        let mut out: Vec<(Mutf8Str<'_>, &Tag)> = Vec::new();
        let mut i: usize = 0;
        while i < self.values.len()
            invariant
                i <= self.values@.len(),
                self@.len() == self.values@.len(),
                forall|k: int| 0 <= k < self.values@.len() ==> #[trigger] self@[k] == (self.values@[k].0@, self.values@[k].1@),
                out@.len() == i,
                forall|j: int| 0 <= j < i ==> (#[trigger] out@[j]).0@ == self@[j].0 && out@[j].1@ == self@[j].1,
            decreases self.values@.len() - i,
        {
            out.push((self.values[i].0.as_str(), &self.values[i].1));
            i = i + 1;
        }
        out
    }

    /// Removes every tag.
    pub fn clear(&mut self)
        ensures
            final(self)@ == Seq::<(Seq<u8>, TagModel)>::empty(),
    {
        self.values.clear();
    }

    /// Adds a named tag at the end; an existing tag with the same name stays.
    pub fn insert(&mut self, name: Mutf8String, tag: Tag)
        ensures
            final(self)@ == old(self)@.push((name@, tag@)),
    {
        let ghost entry = (name@, tag@);
        self.values.push((name, tag));
        assert(self.values@.drop_last() =~= old(self).values@);
    }

    /// Removes the first tag with the given name and returns it.
    pub fn remove(&mut self, name: &str) -> (r: Option<Tag>)
        ensures
            match lookup(old(self)@, mutf8_of_str(name)) {
                Some(t) => r matches Some(x) && x@ == t && exists|i: int|
                    0 <= i < old(self)@.len() && old(self)@[i].0 == mutf8_of_str(name)
                    && (forall|j: int| 0 <= j < i ==> #[trigger] old(self)@[j].0 != mutf8_of_str(name))
                    && final(self)@ == old(self)@.remove(i),
                None => r is None && final(self)@ == old(self)@,
            },
    {
        let key = Mutf8Str::from_str(name);
        match self.find(&key.as_str()) {
            Some(i) => {
                proof {
                    lemma_entries_model(self.values@);
                }
                let ghost before = self.values@;
                let (_, t) = self.values.remove(i);
                proof {
                    lemma_entries_model(self.values@);
                    assert(self.values@ =~= before.remove(i as int));
                    assert(self@ =~= old(self)@.remove(i as int));
                }
                Some(t)
            },
            None => None,
        }
    }
}

} // verus!
