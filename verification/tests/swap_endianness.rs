use simdnbt::swap_endianness::{swap_endianness, swap_endianness_as_u8};

#[test]
fn test_swap_endianness_u16() {
    assert_eq!(
        swap_endianness_as_u8::<u16>(&[1, 2, 3, 4, 5, 6, 7, 8]),
        [2, 1, 4, 3, 6, 5, 8, 7]
    );
}

#[test]
fn test_swap_endianness_u32() {
    assert_eq!(
        swap_endianness_as_u8::<u32>(&[1, 2, 3, 4, 5, 6, 7, 8]),
        [4, 3, 2, 1, 8, 7, 6, 5]
    );
}

#[test]
fn test_swap_endianness_u64() {
    assert_eq!(
        swap_endianness_as_u8::<u64>(&[1, 2, 3, 4, 5, 6, 7, 8]),
        [8, 7, 6, 5, 4, 3, 2, 1]
    );
}

#[test]
fn swap_endianness_keeps_trailing_bytes() {
    assert_eq!(swap_endianness_as_u8::<u32>(&[1, 2, 3, 4, 5, 6]), [4, 3, 2, 1, 5, 6]);
}

#[test]
fn swap_endianness_twice_is_identity() {
    let data = [9u8, 8, 7, 6, 5, 4, 3, 2, 1];
    let once = swap_endianness_as_u8::<u16>(&data);
    let twice = swap_endianness_as_u8::<u16>(&once);
    assert_eq!(twice, data);
}

#[test]
fn swap_endianness_decodes_big_endian_numbers() {
    assert_eq!(swap_endianness::<i16>(&[0xff, 0xfe, 0x00, 0x05]), vec![-2i16, 5]);
    assert_eq!(swap_endianness::<u32>(&[0, 0, 1, 0, 0xff]), vec![256u32]);
    assert_eq!(swap_endianness::<i64>(&[0xff; 8]), vec![-1i64]);
}
