use rafka::text::{parse_unsigned, parse_i32, u64_to_string, i64_to_string, split_to_strings, IntErrorKind,
    contains_string, copy_strings, first_strings};
use rafka::wire::{u32_to_be, u32_from_be, frame, MessageCodec};
use rafka::sorting::sort_u64;
use rafka::collections::StringMap;
use rafka::rafka_core::Error;

#[test]
fn parse_of_to_string_gives_the_number_back() {
    for n in [0u64, 7, 10, 4096, 9092, u64::MAX] {
        let s = u64_to_string(n);
        assert_eq!(s, n.to_string());
        assert_eq!(parse_unsigned(&s, 10, u64::MAX), Ok(n));
    }
}

#[test]
fn signed_numbers_are_written_as_std_writes_them() {
    assert_eq!(i64_to_string(-42), "-42");
    assert_eq!(i64_to_string(0), "0");
    assert_eq!(i64_to_string(i64::MIN), i64::MIN.to_string());
}

#[test]
fn parse_errors_match_std() {
    assert_eq!(parse_unsigned("", 10, u64::MAX), Err(IntErrorKind::Empty));
    assert_eq!(parse_unsigned("12a", 10, u64::MAX), Err(IntErrorKind::InvalidDigit));
    assert_eq!(parse_unsigned("70000", 10, 65535), Err(IntErrorKind::PosOverflow));
    assert_eq!(parse_unsigned("+5", 10, 255), Ok(5));
    assert_eq!(parse_unsigned("ff", 16, u64::MAX), Ok(255));
    assert_eq!(parse_i32("-2147483648"), Ok(i32::MIN));
    assert_eq!(parse_i32("-2147483649"), Err(IntErrorKind::NegOverflow));
    assert_eq!(parse_i32("2147483648"), Err(IntErrorKind::PosOverflow));
    assert_eq!(parse_i32("-"), Err(IntErrorKind::InvalidDigit));
    assert_eq!(IntErrorKind::InvalidDigit.describe(), "12a".parse::<u32>().unwrap_err().to_string());
    assert_eq!(IntErrorKind::Empty.describe(), "".parse::<u32>().unwrap_err().to_string());
}

#[test]
fn split_matches_std_split() {
    for s in ["", "a", "a,b", ",a,,b,", "localhost:9092"] {
        let expected: Vec<String> = s.split(',').map(String::from).collect();
        assert_eq!(split_to_strings(s, ','), expected);
    }
}

#[test]
fn string_list_helpers() {
    let v = vec!["a".to_string(), "b".to_string(), "c".to_string()];
    assert!(contains_string(&v, &"b".to_string()));
    assert!(!contains_string(&v, &"d".to_string()));
    assert_eq!(copy_strings(&v), v);
    assert_eq!(first_strings(&v, 2), vec!["a".to_string(), "b".to_string()]);
    assert_eq!(first_strings(&v, 5), v);
}

#[test]
fn big_endian_round_trip() {
    assert_eq!(u32_to_be(0x0102_0304), vec![1, 2, 3, 4]);
    assert_eq!(u32_from_be(&[1, 2, 3, 4, 9]), 0x0102_0304);
    assert_eq!(u32_from_be(&u32_to_be(u32::MAX)), u32::MAX);
}

#[test]
fn decoding_a_frame_gives_its_payload_back() {
    let payload = b"hello".to_vec();
    let framed = frame(&payload);
    assert_eq!(framed, vec![0, 0, 0, 5, b'h', b'e', b'l', b'l', b'o']);
    let codec = MessageCodec::new(1024);
    let f = codec.decode(&framed).unwrap().unwrap();
    assert_eq!(f.bytes, payload);
    assert_eq!(f.consumed, 9);
}

#[test]
fn decoding_waits_for_a_whole_frame() {
    let codec = MessageCodec::new(1024);
    assert!(codec.decode(&[0, 0]).unwrap().is_none());
    assert!(codec.decode(&[0, 0, 0, 5, 1, 2]).unwrap().is_none());
}

#[test]
fn decoding_refuses_a_frame_too_large() {
    let codec = MessageCodec::new(4);
    assert_eq!(codec.decode(&[0, 0, 0, 5, 1, 2, 3, 4, 5]), Err(Error::MessageTooLarge { size: 5, max: 4 }));
}

#[test]
fn sorting_orders_and_keeps_every_item() {
    assert_eq!(sort_u64(&vec![5, 1, 4, 1, 3]), vec![1, 1, 3, 4, 5]);
    assert_eq!(sort_u64(&vec![]), Vec::<u64>::new());
}

#[test]
fn string_map_keeps_the_last_value_of_a_key() {
    let mut m: StringMap<u32> = StringMap::new();
    m.insert("a".to_string(), 1);
    m.insert("b".to_string(), 2);
    m.insert("a".to_string(), 3);
    assert_eq!(m.len(), 2);
    assert_eq!(m.get(&"a".to_string()), Some(&3));
    assert!(m.contains_key(&"b".to_string()));
    assert_eq!(m.remove(&"b".to_string()), Some(2));
    assert!(!m.contains_key(&"b".to_string()));
    assert_eq!(m.keys(), vec!["a".to_string()]);
}
