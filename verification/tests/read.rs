use byteorder::{WriteBytesExt, BE};
use simdnbt::borrow;
use simdnbt::common::{COMPOUND_ID, END_ID, INT_ID, LIST_ID, LONG_ID};
use simdnbt::owned;
use simdnbt::reader::Reader;
use simdnbt::validate;
use simdnbt::Error;

/// A root compound holding one unnamed list of the ints `0..n`.
fn int_list_nbt(n: i32) -> Vec<u8> {
    let mut data = Vec::new();
    data.write_u8(COMPOUND_ID).unwrap();
    data.write_u16::<BE>(0).unwrap();
    data.write_u8(LIST_ID).unwrap();
    data.write_u16::<BE>(0).unwrap();
    data.write_u8(INT_ID).unwrap();
    data.write_i32::<BE>(n).unwrap();
    for i in 0..n {
        data.write_i32::<BE>(i).unwrap();
    }
    data.write_u8(END_ID).unwrap();
    data
}

/// A root compound holding one unnamed list of the longs `0..n`.
fn long_list_nbt(n: i64) -> Vec<u8> {
    let mut data = Vec::new();
    data.write_u8(COMPOUND_ID).unwrap();
    data.write_u16::<BE>(0).unwrap();
    data.write_u8(LIST_ID).unwrap();
    data.write_u16::<BE>(0).unwrap();
    data.write_u8(LONG_ID).unwrap();
    data.write_i32::<BE>(n as i32).unwrap();
    for i in 0..n {
        data.write_i64::<BE>(i).unwrap();
    }
    data.write_u8(END_ID).unwrap();
    data
}

fn check_int_list(data: &[u8], n: usize) {
    // borrowed
    let nbt = borrow::read(&mut Reader::new(data)).unwrap().unwrap();
    let ints = nbt.compound().list("").unwrap().ints().unwrap().to_vec();
    for (i, &item) in ints.iter().enumerate() {
        assert_eq!(i as i32, item);
    }
    assert_eq!(ints.len(), n);

    // validated only
    validate::read(&mut Reader::new(data)).unwrap();

    // owned
    let nbt = owned::Nbt::new(&mut Reader::new(data)).unwrap().unwrap();
    let ints = nbt.compound().list("").unwrap().ints().unwrap();
    for (i, &item) in ints.iter().enumerate() {
        assert_eq!(i as i32, item);
    }
    assert_eq!(ints.len(), n);
}

fn check_long_list(data: &[u8], n: usize) {
    let nbt = borrow::read(&mut Reader::new(data)).unwrap().unwrap();
    let longs = nbt.compound().list("").unwrap().longs().unwrap().to_vec();
    for (i, &item) in longs.iter().enumerate() {
        assert_eq!(i as i64, item);
    }
    assert_eq!(longs.len(), n);

    validate::read(&mut Reader::new(data)).unwrap();

    let nbt = owned::Nbt::new(&mut Reader::new(data)).unwrap().unwrap();
    let longs = nbt.compound().list("").unwrap().longs().unwrap();
    for (i, &item) in longs.iter().enumerate() {
        assert_eq!(i as i64, item);
    }
    assert_eq!(longs.len(), n);
}

#[test]
fn mod_inttest_1024() {
    check_int_list(&int_list_nbt(1024), 1024);
}

#[test]
fn mod_inttest_1021() {
    check_int_list(&int_list_nbt(1021), 1021);
}

#[test]
fn mod_longtest_1023() {
    check_long_list(&long_list_nbt(1023), 1023);
}

#[test]
fn mod_compound_eof() {
    let mut data = Vec::new();
    data.write_u8(COMPOUND_ID).unwrap(); // root type
    data.write_u16::<BE>(0).unwrap(); // root name length
    data.write_u8(COMPOUND_ID).unwrap(); // first element type
    data.write_u16::<BE>(0).unwrap(); // first element name length
                                      // eof

    let res = borrow::read(&mut Reader::new(&data));
    assert_eq!(res.err(), Some(Error::UnexpectedEof));
    let res = validate::read(&mut Reader::new(&data));
    assert_eq!(res, Err(Error::UnexpectedEof));
    let res = owned::Nbt::new(&mut Reader::new(&data));
    assert_eq!(res, Err(Error::UnexpectedEof));
}

#[test]
fn lib_inttest_1024() {
    let data = int_list_nbt(1024);
    let nbt = owned::Nbt::new(&mut Reader::new(&data)).unwrap().unwrap();
    let ints = nbt.compound().list("").unwrap().ints().unwrap();
    for (i, &item) in ints.iter().enumerate() {
        assert_eq!(i as i32, item);
    }
    assert_eq!(ints.len(), 1024);
}

#[test]
fn lib_inttest_1021() {
    let data = int_list_nbt(1021);
    let nbt = owned::Nbt::new(&mut Reader::new(&data)).unwrap().unwrap();
    let ints = nbt.compound().list("").unwrap().ints().unwrap();
    for (i, &item) in ints.iter().enumerate() {
        assert_eq!(i as i32, item);
    }
    assert_eq!(ints.len(), 1021);
}

#[test]
fn lib_longtest_1023() {
    let data = long_list_nbt(1023);
    let nbt = owned::Nbt::new(&mut Reader::new(&data)).unwrap().unwrap();
    let longs = nbt.compound().list("").unwrap().longs().unwrap();
    for (i, &item) in longs.iter().enumerate() {
        assert_eq!(i as i64, item);
    }
    assert_eq!(longs.len(), 1023);
}

#[test]
fn byte_array() {
    // found from fuzzing
    let data = [10, 0, 0, 7, 0, 0, 0, 0, 0, 0, 0];
    validate::read(&mut Reader::new(&data)).unwrap();
}

#[test]
fn list_of_empty_lists() {
    // found from fuzzing
    // a root compound holding an unnamed list of one empty list
    let data = [10, 0, 0, 9, 0, 0, 9, 0, 0, 0, 1, 0, 9, 0, 0, 0, 0];
    validate::read(&mut Reader::new(&data)).unwrap();
}

#[test]
fn list_of_byte_arrays() {
    // a root compound holding an unnamed list of one empty byte array
    let data = [10, 0, 0, 9, 0, 0, 9, 0, 0, 0, 1, 7, 0, 0, 0, 0, 0];
    validate::read(&mut Reader::new(&data)).unwrap();
}

/// The bytes of the classic hello-world NBT file: a root compound named
/// "hello world" holding the string "name" = "Bananrama".
fn hello_world_nbt() -> Vec<u8> {
    let mut data = vec![COMPOUND_ID, 0, 11];
    data.extend_from_slice(b"hello world");
    data.extend_from_slice(&[8, 0, 4]);
    data.extend_from_slice(b"name");
    data.extend_from_slice(&[0, 9]);
    data.extend_from_slice(b"Bananrama");
    data.push(END_ID);
    data
}

#[test]
fn mod_hello_world() {
    let data = hello_world_nbt();
    // borrowed
    let nbt = borrow::read(&mut Reader::new(&data)).unwrap().unwrap();
    assert_eq!(
        nbt.compound().string("name").unwrap().as_bytes(),
        simdnbt::Mutf8Str::from_str("Bananrama").as_bytes()
    );
    assert_eq!(nbt.name().to_str(), "hello world");
    // validated only
    validate::read(&mut Reader::new(&data)).unwrap();
    // owned
    let nbt = owned::Nbt::new(&mut Reader::new(&data)).unwrap().unwrap();
    assert_eq!(
        nbt.compound().string("name").unwrap().as_bytes(),
        simdnbt::Mutf8Str::from_str("Bananrama").as_bytes()
    );
    assert_eq!(nbt.name().to_str(), "hello world");
}

#[test]
fn lib_hello_world() {
    let data = hello_world_nbt();
    let nbt = owned::Nbt::new(&mut Reader::new(&data)).unwrap().unwrap();
    assert_eq!(
        nbt.compound().string("name").unwrap().as_bytes(),
        simdnbt::Mutf8Str::from_str("Bananrama").as_bytes()
    );
    assert_eq!(nbt.name().to_str(), "hello world");
}

#[test]
fn mod_inttest_1023() {
    check_int_list(&int_list_nbt(1023), 1023);
}

#[test]
fn lib_inttest_1023() {
    let data = int_list_nbt(1023);
    let nbt = owned::Nbt::new(&mut Reader::new(&data)).unwrap().unwrap();
    let ints = nbt.compound().list("").unwrap().ints().unwrap();
    for (i, &item) in ints.iter().enumerate() {
        assert_eq!(i as i32, item);
    }
    assert_eq!(ints.len(), 1023);
}
