use simdnbt::borrow;
use simdnbt::borrow::equality::{compounds_eq, lists_eq, tags_eq};
use simdnbt::owned::{CompoundTag, ListTag, Nbt, Tag};
use simdnbt::reader::Reader;
use simdnbt::validate;
use simdnbt::{Error, Mutf8Str, Mutf8String};

fn name(s: &str) -> Mutf8String {
    Mutf8Str::from_str(s)
}

/// A compound with one tag of every type.
fn sample() -> Nbt {
    let mut inner = CompoundTag::empty();
    inner.insert(name("x"), Tag::Int(-7));
    let mut tag = CompoundTag::empty();
    tag.insert(name("byte"), Tag::Byte(-1));
    tag.insert(name("short"), Tag::Short(300));
    tag.insert(name("int"), Tag::Int(123456));
    tag.insert(name("long"), Tag::Long(-9_000_000_000));
    tag.insert(name("float"), Tag::Float(1.5f32.to_bits()));
    tag.insert(name("double"), Tag::Double(2.25f64.to_bits()));
    tag.insert(name("bytes"), Tag::ByteArray(vec![1, 2, 255]));
    tag.insert(name("string"), Tag::String(name("hello world")));
    tag.insert(name("list"), Tag::List(ListTag::Int(vec![1, 2, 3])));
    tag.insert(
        name("lists"),
        Tag::List(ListTag::List(vec![ListTag::Empty, ListTag::Long(vec![5])])),
    );
    tag.insert(name("compound"), Tag::Compound(inner));
    tag.insert(name("ints"), Tag::IntArray(vec![i32::MIN, 0, i32::MAX]));
    tag.insert(name("longs"), Tag::LongArray(vec![i64::MIN, i64::MAX]));
    Nbt {
        name: name("Bananrama"),
        tag,
    }
}

#[test]
fn owned_write_then_read_gives_the_same_nbt() {
    let nbt = sample();
    let mut data = Vec::new();
    nbt.write(&mut data);
    let mut reader = Reader::new(&data);
    let read = Nbt::new(&mut reader).unwrap().unwrap();
    assert_eq!(read, nbt);
    assert_eq!(reader.cur, data.len());
}

#[test]
fn borrowed_and_owned_reads_agree() {
    let nbt = sample();
    let mut data = Vec::new();
    nbt.write(&mut data);
    let borrowed = borrow::read(&mut Reader::new(&data)).unwrap().unwrap();
    assert_eq!(borrowed.compound().to_owned(), nbt.tag);
    assert_eq!(borrowed.name().as_bytes(), b"Bananrama");
    assert_eq!(borrowed.compound().int_value("int"), Some(123456));
    assert_eq!(borrowed.compound().float_bits("float"), Some(1.5f32.to_bits()));
}

#[test]
fn borrowed_write_gives_the_same_bytes() {
    let nbt = sample();
    let mut data = Vec::new();
    nbt.write(&mut data);
    let borrowed = borrow::read(&mut Reader::new(&data)).unwrap();
    let mut again = Vec::new();
    borrowed.write(&mut again);
    assert_eq!(again, data);
}

#[test]
fn validate_accepts_what_was_written() {
    let nbt = sample();
    let mut data = Vec::new();
    nbt.write(&mut data);
    let mut reader = Reader::new(&data);
    validate::read(&mut reader).unwrap();
    assert_eq!(reader.cur, data.len());
}

#[test]
fn empty_data_is_an_end_tag() {
    let data = [0u8];
    assert_eq!(Nbt::new(&mut Reader::new(&data)), Ok(None));
    assert!(borrow::read(&mut Reader::new(&data)).unwrap().is_none());
    assert_eq!(validate::read(&mut Reader::new(&data)), Ok(()));
}

#[test]
fn no_data_is_an_unexpected_eof() {
    let data: [u8; 0] = [];
    assert_eq!(Nbt::new(&mut Reader::new(&data)), Err(Error::UnexpectedEof));
    assert_eq!(validate::read(&mut Reader::new(&data)), Err(Error::UnexpectedEof));
}

#[test]
fn invalid_root_type_is_refused() {
    let data = [1u8, 0, 0, 5];
    assert_eq!(Nbt::new(&mut Reader::new(&data)), Err(Error::InvalidRootType(1)));
    assert_eq!(
        borrow::read(&mut Reader::new(&data)).err(),
        Some(Error::InvalidRootType(1))
    );
    assert_eq!(validate::read(&mut Reader::new(&data)), Err(Error::InvalidRootType(1)));
}

#[test]
fn unknown_tag_id_is_refused() {
    let data = [10u8, 0, 0, 13, 0, 0, 0];
    assert_eq!(Nbt::new(&mut Reader::new(&data)), Err(Error::UnknownTagId(13)));
    assert_eq!(
        borrow::read(&mut Reader::new(&data)).err(),
        Some(Error::UnknownTagId(13))
    );
    assert_eq!(validate::read(&mut Reader::new(&data)), Err(Error::UnknownTagId(13)));
}

/// A root compound with `n` compounds nested inside it.
fn nested_compounds(n: usize) -> Vec<u8> {
    let mut data = vec![10u8, 0, 0];
    for _ in 0..n {
        data.extend_from_slice(&[10, 0, 0]);
    }
    for _ in 0..=n {
        data.push(0);
    }
    data
}

#[test]
fn depth_limit() {
    // the borrowed and validating readers put the root at depth 1 and refuse
    // to open a container at depth 512, so 510 nested compounds are the most
    let ok = nested_compounds(510);
    assert!(borrow::read(&mut Reader::new(&ok)).unwrap().is_some());
    assert_eq!(validate::read(&mut Reader::new(&ok)), Ok(()));

    let too_deep = nested_compounds(511);
    assert_eq!(
        borrow::read(&mut Reader::new(&too_deep)).err(),
        Some(Error::MaxDepthExceeded)
    );
    assert_eq!(
        validate::read(&mut Reader::new(&too_deep)),
        Err(Error::MaxDepthExceeded)
    );

    // the owned reader puts the root at depth 0 and refuses a compound or
    // list deeper than 512, so 512 nested compounds are the most
    assert!(Nbt::new(&mut Reader::new(&too_deep)).unwrap().is_some());
    let ok = nested_compounds(512);
    assert!(Nbt::new(&mut Reader::new(&ok)).unwrap().is_some());
    let too_deep = nested_compounds(513);
    assert_eq!(
        Nbt::new(&mut Reader::new(&too_deep)),
        Err(Error::MaxDepthExceeded)
    );
}

#[test]
fn owned_depth_is_checked_on_entry() {
    // an empty compound or list is still refused past the limit
    assert_eq!(
        CompoundTag::new(&mut Reader::new(&[0u8]), 513),
        Err(Error::MaxDepthExceeded)
    );
    assert_eq!(CompoundTag::new(&mut Reader::new(&[0u8]), 512), Ok(CompoundTag::empty()));
    assert_eq!(
        ListTag::new(&mut Reader::new(&[1u8, 0, 0, 0, 0]), 513),
        Err(Error::MaxDepthExceeded)
    );
    // every list counts: a list of ints inside a compound at depth 512 is at
    // depth 513
    let data = [9u8, 0, 1, b'l', 3, 0, 0, 0, 0, 0];
    assert_eq!(
        CompoundTag::new(&mut Reader::new(&data), 512),
        Err(Error::MaxDepthExceeded)
    );
    assert!(CompoundTag::new(&mut Reader::new(&data), 511).is_ok());
}

#[test]
fn deepest_owned_nbt_writes_and_reads_back() {
    // 512 nested compounds: deeper than the borrowed reader accepts, yet the
    // owned reader reads back exactly what was written
    let mut tag = CompoundTag::empty();
    for _ in 0..512 {
        let mut outer = CompoundTag::empty();
        outer.insert(name(""), Tag::Compound(tag));
        tag = outer;
    }
    let nbt = Nbt { name: name("deep"), tag };
    let mut data = Vec::new();
    nbt.write(&mut data);
    let mut reader = Reader::new(&data);
    let read = Nbt::new(&mut reader).unwrap().unwrap();
    assert_eq!(read, nbt);
    assert_eq!(reader.cur, data.len());
    assert_eq!(
        borrow::read(&mut Reader::new(&data)).err(),
        Some(Error::MaxDepthExceeded)
    );
}

#[test]
fn compound_lookup_finds_the_first_match() {
    let mut c = CompoundTag::empty();
    c.insert(name("a"), Tag::Int(1));
    c.insert(name("a"), Tag::Int(2));
    assert_eq!(c.int_value("a"), Some(1));
    assert_eq!(c.len(), 2);
    assert_eq!(c.remove("a"), Some(Tag::Int(1)));
    assert_eq!(c.int_value("a"), Some(2));
    assert_eq!(c.byte("a"), None);
    assert!(!c.contains("b"));
    c.clear();
    assert!(c.is_empty());
}

#[test]
fn list_write_then_read() {
    let list = ListTag::String(vec![name("a"), name("bc")]);
    let mut data = Vec::new();
    list.write(&mut data);
    assert_eq!(data, vec![8, 0, 0, 0, 2, 0, 1, b'a', 0, 2, b'b', b'c']);
    let read = ListTag::new(&mut Reader::new(&data), 1).unwrap();
    assert_eq!(read, list);
}

#[test]
fn borrowed_compound_iterates_in_order() {
    let nbt = sample();
    let mut data = Vec::new();
    nbt.write(&mut data);
    let borrowed = borrow::read(&mut Reader::new(&data)).unwrap().unwrap();
    let compound = borrowed.compound();
    let mut iter = compound.iter();
    let mut names = Vec::new();
    while let Some((name, tag)) = iter.next() {
        names.push(name.as_bytes().to_vec());
        if name.as_bytes() == b"short" {
            assert_eq!(tag.short(), Some(300));
        }
    }
    assert_eq!(names.len(), 13);
    assert_eq!(names[0], b"byte".to_vec());
    assert_eq!(names[12], b"longs".to_vec());
    assert!(iter.next().is_none());
}

#[test]
fn lone_unnamed_value_is_found() {
    let mut c = CompoundTag::empty();
    c.insert(name(""), Tag::Int(3));
    assert_eq!(c.lone_unnamed_value(), Some(&Tag::Int(3)));
    c.insert(name("x"), Tag::Int(4));
    assert_eq!(c.lone_unnamed_value(), None);
    let mut d = CompoundTag::empty();
    d.insert(name("y"), Tag::Int(3));
    assert_eq!(d.lone_unnamed_value(), None);
}

#[test]
fn borrowed_views_compare_by_content() {
    let nbt = sample();
    let mut data = Vec::new();
    nbt.write(&mut data);
    let a = borrow::read(&mut Reader::new(&data)).unwrap().unwrap();
    let b = borrow::read(&mut Reader::new(&data)).unwrap().unwrap();
    assert!(compounds_eq(&a.compound(), &b.compound()));
    let la = a.compound().list("lists").unwrap();
    let lb = b.compound().list("lists").unwrap();
    assert!(lists_eq(&la, &lb));
    let ints = b.compound().list("list").unwrap();
    assert!(!lists_eq(&la, &ints));
    let ta = a.compound().get("compound").unwrap();
    let tb = b.compound().get("compound").unwrap();
    assert!(tags_eq(&ta, &tb));
    assert!(!tags_eq(&ta, &b.compound().get("int").unwrap()));

    let mut other = sample();
    other.tag.insert(name("extra"), Tag::Byte(0));
    let mut data2 = Vec::new();
    other.write(&mut data2);
    let c = borrow::read(&mut Reader::new(&data2)).unwrap().unwrap();
    assert!(!compounds_eq(&a.compound(), &c.compound()));
}

#[test]
fn compound_values_change_in_place() {
    let mut c = CompoundTag::empty();
    c.insert(name("a"), Tag::Int(1));
    c.insert(name("b"), Tag::ByteArray(vec![1]));
    c.insert(name("a"), Tag::Int(2));
    *c.int_mut("a").unwrap() = 10;
    assert_eq!(c.int_value("a"), Some(10));
    assert_eq!(c.values()[2], &Tag::Int(2));
    assert!(c.byte_mut("a").is_none());
    assert!(c.int_mut("missing").is_none());
    c.byte_array_mut("b").unwrap().push(2);
    assert_eq!(c.byte_array("b"), Some(&[1u8, 2][..]));
    *c.get_mut("b").unwrap() = Tag::Long(5);
    assert_eq!(c.long("b"), Some(5));
    let entries = c.iter();
    assert_eq!(entries.len(), 3);
    assert_eq!(entries[1].0.as_bytes(), b"b");
    assert_eq!(entries[1].1, &Tag::Long(5));
    let mut t = Tag::Short(3);
    *t.short_mut().unwrap() = 4;
    assert_eq!(t, Tag::Short(4));
    assert!(t.long_mut().is_none());
}

#[test]
fn list_lengths_are_approximated() {
    let mut c = CompoundTag::empty();
    c.insert(
        name("l"),
        Tag::List(ListTag::Compound(vec![CompoundTag::empty(), CompoundTag::empty()])),
    );
    let nbt = Nbt { name: name(""), tag: c };
    let mut data = Vec::new();
    nbt.write(&mut data);
    let b = borrow::read(&mut Reader::new(&data)).unwrap().unwrap();
    let list = b.compound().list("l").unwrap().compounds().unwrap();
    assert_eq!(list.approx_len(), 2);
    assert_eq!(list.len(), 2);
}
