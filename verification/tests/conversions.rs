use simdnbt::borrow::cursor::McCursor;
use simdnbt::error::ReadError;
use simdnbt::fastvec::FastVec;
use simdnbt::owned::{ListTag, Tag};
use simdnbt::reader::Reader;
use simdnbt::traits::{Deserialize, Serialize, ToNbtTag};
use simdnbt::owned::CompoundTag;
use simdnbt::{DeserializeError, Error, Mutf8Str};

#[test]
fn cursor_reads_big_endian_values() {
    let data = [0x12u8, 0x34, 0x56, 0x78, 0xFF, 1, 2, 3, 4, 5, 6, 7, 8];
    let mut c = McCursor::new(&data);
    assert_eq!(c.read_i16(), Ok(0x1234));
    assert_eq!(c.read_u8(), Ok(0x56));
    assert_eq!(c.read_i8(), Ok(0x78));
    assert_eq!(c.read_i8(), Ok(-1));
    assert_eq!(c.read_i64(), Ok(0x0102030405060708));
    assert_eq!(c.read_u8(), Err(Error::UnexpectedEof));
}

#[test]
fn cursor_reads_prefixed_arrays() {
    let data = [0u8, 0, 0, 2, 0xFF, 0x01, 0, 1, b'a', 9];
    let mut c = McCursor::new(&data);
    assert_eq!(c.read_i8_array(), Ok(vec![-1i8, 1]));
    assert_eq!(c.read_string().unwrap().as_bytes(), b"a");
    assert_eq!(c.read_u8(), Ok(9));

    let data = [0u8, 0, 0, 1, 0, 0, 0, 7, 0, 0, 0, 0, 0, 0, 0, 9];
    let mut c = McCursor::new(&data);
    assert_eq!(c.read_int_array().unwrap().to_vec(), vec![7]);
    assert_eq!(c.read_long_array().unwrap().to_vec(), Vec::<i64>::new());
    assert_eq!(c.read_u32(), Ok(9));
}

#[test]
fn cursor_refuses_a_negative_count() {
    let data = [0xFFu8, 0xFF, 0xFF, 0xFF, 1, 2, 3];
    let mut c = McCursor::new(&data);
    assert_eq!(c.read_u8_array(), Err(Error::UnexpectedEof));
    // the count was consumed
    assert_eq!(c.read_u8(), Ok(1));
}

#[test]
fn cursor_refuses_a_count_past_the_end() {
    let data = [0u8, 5, 1, 2];
    let mut c = McCursor::new(&data);
    assert_eq!(c.read_with_u16_length(1), Err(Error::UnexpectedEof));
    assert_eq!(c.advance(3), Err(Error::UnexpectedEof));
    assert_eq!(c.advance(2), Ok(()));
    assert_eq!(c.read_u8(), Err(Error::UnexpectedEof));
}

#[test]
fn fastvec_appends() {
    let mut v: FastVec<u8> = FastVec::with_capacity(0);
    v.push(1);
    v.extend_from_slice(&[2, 3]);
    v.reserve(10);
    assert_eq!(v.len(), 3);
    assert_eq!(v.into_vec(), vec![1, 2, 3]);
    let v: FastVec<u8> = FastVec::from(vec![4, 5]);
    assert_eq!(v.into_vec(), vec![4, 5]);
    let v: FastVec<u8> = FastVec::default();
    assert_eq!(v.len(), 0);
}

#[test]
fn values_become_tags() {
    assert_eq!(true.to_nbt_tag(), Tag::Byte(1));
    assert_eq!(false.to_nbt_tag(), Tag::Byte(0));
    assert_eq!(200u8.to_nbt_tag(), Tag::Byte(-56));
    assert_eq!(0xFFFFu16.to_nbt_tag(), Tag::Short(-1));
    assert_eq!(5u32.to_nbt_tag(), Tag::Int(5));
    assert_eq!(u64::MAX.to_nbt_tag(), Tag::Long(-1));
    assert_eq!(7i8.to_nbt_tag(), Tag::Byte(7));
    assert_eq!(7i16.to_optional_nbt_tag(), Some(Tag::Short(7)));
    assert_eq!(7i32.to_nbt_tag(), Tag::Int(7));
    assert_eq!(7i64.to_nbt_tag(), Tag::Long(7));
    assert_eq!(
        "a\0".to_nbt_tag(),
        Tag::String(Mutf8Str::from_slice(&[b'a', 0xC0, 0x80]).to_owned())
    );
    assert_eq!(
        String::from("b").to_nbt_tag(),
        Tag::String(Mutf8Str::from_str("b"))
    );
    assert_eq!(
        vec![String::from("x"), String::from("\0")].to_nbt_tag(),
        Tag::List(ListTag::String(vec![
            Mutf8Str::from_str("x"),
            Mutf8Str::from_slice(&[0xC0, 0x80]).to_owned()
        ]))
    );
    assert_eq!(
        ListTag::Empty.to_nbt_tag(),
        Tag::List(ListTag::Empty)
    );
}

#[test]
fn compounds_serialize_to_unnamed_roots() {
    let mut c = CompoundTag::empty();
    c.insert(Mutf8Str::from_str("k"), Tag::Int(1));
    let nbt = c.to_compound().to_nbt();
    assert_eq!(nbt.name.as_bytes(), b"");
    assert_eq!(nbt.tag.int_value("k"), Some(1));
    let tag = nbt.tag.to_nbt_tag();
    assert!(matches!(tag, Tag::Compound(_)));
}

#[test]
fn errors_convert() {
    assert_eq!(DeserializeError::from(Error::UnexpectedEof), DeserializeError::Nbt(Error::UnexpectedEof));
    assert!(matches!(ReadError::from(Error::UnknownTagId(20)), ReadError::UnknownTagId(20)));
    assert!(matches!(ReadError::from(Error::MaxDepthExceeded), ReadError::MaxDepthExceeded));
}

#[test]
fn values_are_read_from_nbt() {
    assert_eq!(i8::read_value_direct(&mut Reader::new(&[0xFF])), Ok(-1));
    assert_eq!(u16::read_value_direct(&mut Reader::new(&[1, 2])), Ok(0x0102));
    assert_eq!(i32::read_value_direct(&mut Reader::new(&[0xFF, 0xFF, 0xFF, 0xFE])), Ok(-2));
    assert_eq!(
        u64::read_value_direct(&mut Reader::new(&[0, 0, 0, 0, 0, 0, 1, 0])),
        Ok(256)
    );
    assert_eq!(
        i64::read_value_direct(&mut Reader::new(&[0, 0, 0])),
        Err(DeserializeError::Nbt(Error::UnexpectedEof))
    );
    assert!(i16::type_matches(2));
    assert!(!i16::type_matches(3));
    assert!(Option::<CompoundTag>::type_matches(10));

    // a list of three ints
    let data = [3u8, 0, 0, 0, 3, 0, 0, 0, 1, 0, 0, 0, 2, 0, 0, 0, 3];
    assert_eq!(Vec::<i32>::read_value_direct(&mut Reader::new(&data)), Ok(vec![1, 2, 3]));
    // a list of the wrong type
    assert_eq!(
        Vec::<i64>::read_value_direct(&mut Reader::new(&data)),
        Err(DeserializeError::MismatchedListType(3))
    );
    // an empty or negative count gives an empty list
    let data = [3u8, 0xFF, 0xFF, 0xFF, 0xFF];
    assert_eq!(Vec::<i64>::read_value_direct(&mut Reader::new(&data)), Ok(vec![]));

    // an empty compound reads as None
    assert_eq!(
        Option::<CompoundTag>::read_value_direct(&mut Reader::new(&[0])),
        Ok(None)
    );
    let data = [1u8, 0, 1, b'k', 5, 0];
    let c = Option::<CompoundTag>::read_value_direct(&mut Reader::new(&data))
        .unwrap()
        .unwrap();
    assert_eq!(c.byte("k"), Some(5));

    // a root with a name
    let data = [10u8, 0, 2, b'h', b'i', 1, 0, 1, b'k', 5, 0];
    let (name, c) = CompoundTag::read(&mut Reader::new(&data)).unwrap();
    assert_eq!(name.as_bytes(), b"hi");
    assert_eq!(c.byte("k"), Some(5));
    assert_eq!(
        CompoundTag::read(&mut Reader::new(&[8u8, 0, 0])).err(),
        Some(DeserializeError::Nbt(Error::InvalidRootType(8)))
    );
    let s = Mutf8Str::read_value_direct(&mut Reader::new(&[0, 1, b'z'])).unwrap();
    assert_eq!(s.as_bytes(), b"z");
}
