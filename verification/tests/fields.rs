use ti_protocol::codec::{
    encode_i32, encode_string, encode_u16, encode_u32, encode_u64, take_i32, take_string,
    take_u16, take_u32, take_u64,
};

#[test]
fn unsigned_fields_are_little_endian() {
    assert_eq!(encode_u16(0x55aa).unwrap(), vec![0xaa, 0x55]);
    assert_eq!(encode_u32(0x01020304).unwrap(), vec![4, 3, 2, 1]);
    assert_eq!(
        encode_u64(0x0102030405060708).unwrap(),
        vec![8, 7, 6, 5, 4, 3, 2, 1]
    );
    assert_eq!(encode_u16(0).unwrap(), vec![0, 0]);
    assert_eq!(encode_u64(u64::MAX).unwrap(), vec![0xff; 8]);
}

#[test]
fn signed_fields_are_twos_complement() {
    assert_eq!(encode_i32(1000).unwrap(), vec![0xe8, 0x03, 0, 0]);
    assert_eq!(encode_i32(-1).unwrap(), vec![0xff, 0xff, 0xff, 0xff]);
    assert_eq!(encode_i32(i32::MIN).unwrap(), vec![0, 0, 0, 0x80]);
    assert_eq!(encode_i32(i32::MAX).unwrap(), vec![0xff, 0xff, 0xff, 0x7f]);
}

#[test]
fn string_fields_carry_their_length() {
    assert_eq!(
        encode_string(&"hi".to_string()).unwrap(),
        vec![2, 0, 0, 0, 0, 0, 0, 0, b'h', b'i']
    );
    assert_eq!(encode_string(&String::new()).unwrap(), vec![0; 8]);
    assert_eq!(
        encode_string(&"é".to_string()).unwrap(),
        vec![2, 0, 0, 0, 0, 0, 0, 0, 0xc3, 0xa9]
    );
}

#[test]
fn taking_a_field_leaves_the_rest() {
    let input = [0xaa, 0x55, 1, 2, 3];
    let (value, rest) = take_u16(&input).unwrap();
    assert_eq!(value, 0x55aa);
    assert_eq!(rest, &[1, 2, 3]);

    let input = [4, 3, 2, 1, 9];
    let (value, rest) = take_u32(&input).unwrap();
    assert_eq!(value, 0x01020304);
    assert_eq!(rest, &[9]);

    let input = [8, 7, 6, 5, 4, 3, 2, 1];
    let (value, rest) = take_u64(&input).unwrap();
    assert_eq!(value, 0x0102030405060708);
    assert!(rest.is_empty());

    let input = [0xfe, 0xff, 0xff, 0xff, 5, 6];
    let (value, rest) = take_i32(&input).unwrap();
    assert_eq!(value, -2);
    assert_eq!(rest, &[5, 6]);

    let input = [2, 0, 0, 0, 0, 0, 0, 0, b'h', b'i', b'!', 0];
    let (value, rest) = take_string(&input).unwrap();
    assert_eq!(value, "hi");
    assert_eq!(rest, &[b'!', 0]);
}

#[test]
fn taking_from_too_few_bytes_fails() {
    assert!(take_u16(&[1]).is_err());
    assert!(take_u16(&[]).is_err());
    assert!(take_u32(&[1, 2, 3]).is_err());
    assert!(take_u64(&[1, 2, 3, 4, 5, 6, 7]).is_err());
    assert!(take_i32(&[1, 2, 3]).is_err());
    assert!(take_string(&[1, 0, 0, 0, 0, 0, 0]).is_err());
    assert!(take_string(&[1, 0, 0, 0, 0, 0, 0, 0]).is_err());
    assert!(take_string(&[1, 0, 0, 0, 0, 0, 0, 0, 0x80]).is_err());
}

#[test]
fn taking_a_string_of_several_bytes_per_character() {
    let mut input = encode_string(&"☃🦀".to_string()).unwrap();
    input.extend_from_slice(&[1, 2]);
    let (value, rest) = take_string(&input).unwrap();
    assert_eq!(value, "☃🦀");
    assert_eq!(rest, &[1, 2]);
}

#[test]
fn failure_carries_a_message() {
    let message = take_u16(&[1]).unwrap_err();
    assert!(!message.is_empty());
}
