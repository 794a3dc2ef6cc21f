use simdnbt::borrow::tape::u56;

#[test]
fn test_u56() {
    // top 8 bits are cut off
    let value = 0x1234_5678_9abc_def0;
    let u56 { a, b, c } = u56::from(value);
    assert_eq!(a, 0x34);
    assert_eq!(b, 0x5678);
    assert_eq!(c, 0x9abc_def0);

    let value: u64 = u56 { a, b, c }.into();
    assert_eq!(value, 0x34_5678_9abc_def0);
}
