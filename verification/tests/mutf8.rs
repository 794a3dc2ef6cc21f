use simdnbt::{Mutf8Str, Mutf8String};

#[test]
fn same_as_utf8() {
    let str = "Hello, world!";
    // 16-bit Unicode characters are the same in UTF-8 and MUTF-8:
    assert_eq!(
        Mutf8Str::from_str(str).as_str(),
        Mutf8Str::from_slice(str.as_bytes())
    );
    assert_eq!(Mutf8Str::from_str(str).as_str().to_str(), str);
}

#[test]
fn surrogate_pairs() {
    let str = "\u{10401}";
    let mutf8_data = &[0xED, 0xA0, 0x81, 0xED, 0xB0, 0x81];
    // 'mutf8_data' is a byte slice containing a 6-byte surrogate pair which
    // becomes a 4-byte UTF-8 character.
    assert_eq!(Mutf8Str::from_slice(mutf8_data).to_str(), str);
}

#[test]
fn null_bytes() {
    let str = "\0";
    let mutf8_data = vec![0xC0, 0x80];
    // 'str' is a null character which becomes a two-byte MUTF-8 representation.
    assert_eq!(Mutf8Str::from_slice(&mutf8_data).to_str(), str);
}

#[test]
fn null_byte_is_encoded_in_two_bytes() {
    assert_eq!(Mutf8Str::from_str("\0").as_bytes(), &[0xC0, 0x80]);
    assert_eq!(Mutf8String::from_string("a\0b").as_bytes(), &[b'a', 0xC0, 0x80, b'b']);
}

#[test]
fn supplementary_character_is_encoded_as_surrogate_pair() {
    assert_eq!(
        Mutf8Str::from_str("\u{10401}").as_bytes(),
        &[0xED, 0xA0, 0x81, 0xED, 0xB0, 0x81]
    );
}

#[test]
fn try_to_str_refuses_invalid_bytes() {
    assert_eq!(Mutf8Str::from_slice(&[0xFF, 0xFE]).try_to_str(), None);
    assert_eq!(
        Mutf8Str::from_slice(b"abc").try_to_str(),
        Some(String::from("abc"))
    );
}

#[test]
fn lossy_decoding_replaces_invalid_bytes() {
    assert_eq!(Mutf8Str::from_slice(b"ab\xFFc").to_string_lossy(), "ab\u{FFFD}c");
}

#[test]
fn string_equality_compares_bytes() {
    let a = Mutf8Str::from_slice(b"name");
    let b = Mutf8String::from_vec(b"name".to_vec());
    assert!(a.eq_str(&b.as_str()));
    assert!(!a.eq_str(&Mutf8Str::from_slice(b"other")));
    assert_eq!(b.duplicate(), b);
    assert_eq!(a.to_owned(), b);
    assert_eq!(a.len(), 4);
    assert!(!a.is_empty());
}

#[test]
fn validity_of_mutf8() {
    assert!(!Mutf8Str::is_valid(&[0xFF]));
    assert!(!Mutf8Str::is_valid(&[0x00]));
    assert!(!Mutf8Str::is_valid(&[0x80]));
    assert!(!Mutf8Str::is_valid(&[0xF0, 0x90, 0x90, 0x81]));
    assert!(!Mutf8Str::is_valid(&[0xC3]));
    assert!(!Mutf8Str::is_valid(&[0xC1, 0x81]));
    assert!(!Mutf8Str::is_valid(&[0xE0, 0x80, 0x80]));
    assert!(Mutf8Str::is_valid(b""));
    assert!(Mutf8Str::is_valid(b"Hello, world!"));
    assert!(Mutf8Str::is_valid(&[0xC0, 0x80]));
    assert!(Mutf8Str::is_valid(&[0xC3, 0xA9]));
    assert!(Mutf8Str::is_valid(&[0xED, 0xA0, 0x81, 0xED, 0xB0, 0x81]));
    assert!(Mutf8Str::is_valid(Mutf8Str::from_str("a\0\u{10401}é").as_bytes()));
}
