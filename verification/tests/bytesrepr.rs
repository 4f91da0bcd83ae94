use contract_ffi::bytesrepr::{
    append_bytes, deserialize, read_le, write_le, Error, FromBytes, ToBytes,
};

#[test]
fn u8_is_one_byte() {
    assert_eq!(200u8.to_bytes(), Ok(vec![200u8]));
    assert_eq!(deserialize::<u8>(&[200u8]), Ok(200u8));
}

#[test]
fn u32_is_little_endian() {
    assert_eq!(7u32.to_bytes(), Ok(vec![7u8, 0, 0, 0]));
    assert_eq!(0x0102_0304u32.to_bytes(), Ok(vec![4u8, 3, 2, 1]));
    assert_eq!(deserialize::<u32>(&[4u8, 3, 2, 1]), Ok(0x0102_0304u32));
    assert_eq!(deserialize::<u32>(&[255u8, 255, 255, 255]), Ok(u32::MAX));
}

#[test]
fn u64_is_little_endian() {
    assert_eq!(0x0102u64.to_bytes(), Ok(vec![2u8, 1, 0, 0, 0, 0, 0, 0]));
    assert_eq!(deserialize::<u64>(&[255u8; 8]), Ok(u64::MAX));
    assert_eq!(u64::MAX.to_bytes(), Ok(vec![255u8; 8]));
}

#[test]
fn bool_is_zero_or_one() {
    assert_eq!(true.to_bytes(), Ok(vec![1u8]));
    assert_eq!(false.to_bytes(), Ok(vec![0u8]));
    assert_eq!(deserialize::<bool>(&[1u8]), Ok(true));
    assert_eq!(deserialize::<bool>(&[0u8]), Ok(false));
    assert_eq!(deserialize::<bool>(&[2u8]), Err(Error::FormattingError));
}

#[test]
fn unit_is_empty() {
    assert_eq!(().to_bytes(), Ok(Vec::new()));
    assert_eq!(deserialize::<()>(&[]), Ok(()));
    assert_eq!(deserialize::<()>(&[0u8]), Err(Error::LeftOverBytes));
}

#[test]
fn string_has_a_length_prefix() {
    let s = String::from("ab");
    assert_eq!(s.to_bytes(), Ok(vec![2u8, 0, 0, 0, 97, 98]));
    assert_eq!(deserialize::<String>(&[2u8, 0, 0, 0, 97, 98]), Ok(String::from("ab")));
    assert_eq!(deserialize::<String>(&[0u8, 0, 0, 0]), Ok(String::new()));
}

#[test]
fn string_counts_bytes_not_characters() {
    let s = String::from("é");
    assert_eq!(s.to_bytes(), Ok(vec![2u8, 0, 0, 0, 0xc3, 0xa9]));
    assert_eq!(deserialize::<String>(&[2u8, 0, 0, 0, 0xc3, 0xa9]), Ok(String::from("é")));
}

#[test]
fn string_that_is_not_utf8_is_refused() {
    assert_eq!(deserialize::<String>(&[2u8, 0, 0, 0, 0xc3, 0x28]), Err(Error::FormattingError));
    assert_eq!(deserialize::<String>(&[1u8, 0, 0, 0, 0xff]), Err(Error::FormattingError));
}

#[test]
fn string_that_ends_early_is_refused() {
    assert_eq!(deserialize::<String>(&[3u8, 0, 0, 0, 97, 98]), Err(Error::EarlyEndOfStream));
    assert_eq!(deserialize::<String>(&[3u8, 0, 0]), Err(Error::EarlyEndOfStream));
}

#[test]
fn list_has_a_count_prefix() {
    let v: Vec<u32> = vec![1, 2];
    assert_eq!(v.to_bytes(), Ok(vec![2u8, 0, 0, 0, 1, 0, 0, 0, 2, 0, 0, 0]));
    assert_eq!(deserialize::<Vec<u32>>(&[2u8, 0, 0, 0, 1, 0, 0, 0, 2, 0, 0, 0]), Ok(vec![1u32, 2]));
    assert_eq!(deserialize::<Vec<u32>>(&[0u8, 0, 0, 0]), Ok(Vec::new()));
}

#[test]
fn list_of_strings_round_trips() {
    let v = vec![String::from("a"), String::from(""), String::from("xyz")];
    let bytes = v.to_bytes().unwrap();
    assert_eq!(bytes.len(), 4 + 5 + 4 + 7);
    assert_eq!(deserialize::<Vec<String>>(&bytes), Ok(v));
}

#[test]
fn list_that_ends_early_is_refused() {
    assert_eq!(deserialize::<Vec<u32>>(&[2u8, 0, 0, 0, 1, 0, 0, 0]), Err(Error::EarlyEndOfStream));
    assert_eq!(deserialize::<Vec<bool>>(&[1u8, 0, 0, 0, 7]), Err(Error::FormattingError));
}

#[test]
fn pair_is_one_part_after_the_other() {
    let p = (String::from("k"), 9u8);
    assert_eq!(p.to_bytes(), Ok(vec![1u8, 0, 0, 0, 107, 9]));
    assert_eq!(deserialize::<(String, u8)>(&[1u8, 0, 0, 0, 107, 9]), Ok((String::from("k"), 9u8)));
    assert_eq!(deserialize::<(String, u8)>(&[1u8, 0, 0, 0, 107]), Err(Error::EarlyEndOfStream));
}

#[test]
fn from_bytes_hands_back_the_rest() {
    let bytes = [5u8, 0, 0, 0, 9, 8];
    let (x, rest) = u32::from_bytes(&bytes).unwrap();
    assert_eq!(x, 5);
    assert_eq!(rest, &[9u8, 8]);
}

#[test]
fn left_over_bytes_are_an_error() {
    assert_eq!(deserialize::<u32>(&[5u8, 0, 0, 0, 9]), Err(Error::LeftOverBytes));
    assert_eq!(deserialize::<u8>(&[]), Err(Error::EarlyEndOfStream));
    assert_eq!(deserialize::<u64>(&[1u8, 2, 3]), Err(Error::EarlyEndOfStream));
}

#[test]
fn a_list_too_long_for_its_prefix_is_out_of_memory() {
    let mut v: Vec<()> = Vec::new();
    v.resize(0x1_0000_0000usize, ());
    assert_eq!(v.to_bytes(), Err(Error::OutOfMemoryError));
    v.truncate(3);
    assert_eq!(v.to_bytes(), Ok(vec![3u8, 0, 0, 0]));
}

#[test]
fn little_endian_helpers() {
    let mut out = vec![9u8];
    write_le(&mut out, 0x0a0b0c, 3);
    assert_eq!(out, vec![9u8, 0x0c, 0x0b, 0x0a]);
    assert_eq!(read_le(&[0x0c, 0x0b, 0x0a, 0xff], 3), 0x0a0b0c);
    assert_eq!(read_le(&[1u8], 0), 0);
    append_bytes(&mut out, &[1u8, 2]);
    assert_eq!(out, vec![9u8, 0x0c, 0x0b, 0x0a, 1, 2]);
}
