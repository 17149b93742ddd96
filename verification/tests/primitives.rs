use tl_codec::wire::{wire_length, VECTOR_ID};
use tl_codec::{Double, Error, Reader, TLType, Writer};

#[test]
fn test_i32() {
    let i = -49302394i32;
    let mut cur = Writer::new();
    i.serialize(&mut cur).unwrap();
    let mut input = Reader::new(cur.as_slice());
    let ii = i32::deserialize(&mut input).unwrap();
    assert_eq!(i, ii);
}

#[test]
fn test_i64() {
    let i = -493023949029i64;
    let mut cur = Writer::new();
    i.serialize(&mut cur).unwrap();
    let mut input = Reader::new(cur.as_slice());
    let ii = i64::deserialize(&mut input).unwrap();
    assert_eq!(i, ii);
}

#[test]
fn test_f64() {
    let f = -493023.949029f64;
    let mut cur = Writer::new();
    Double::from_bits(f.to_bits()).serialize(&mut cur).unwrap();
    let mut input = Reader::new(cur.as_slice());
    let ff = f64::from_bits(Double::deserialize(&mut input).unwrap().to_bits());
    assert_eq!(f, ff);
}

#[test]
fn test_bytes() {
    let b = vec![1u8, 2, 3, 4, 5];
    let mut cur = Writer::new();
    b.serialize(&mut cur).unwrap();
    let mut input = Reader::new(cur.as_slice());
    let bb: Vec<u8> = Vec::deserialize(&mut input).unwrap();
    assert_eq!(b, bb);
}

#[test]
fn test_string() {
    let s = String::from("puppa");
    let mut cur = Writer::new();
    s.serialize(&mut cur).unwrap();
    let mut input = Reader::new(cur.as_slice());
    let ss = String::deserialize(&mut input).unwrap();
    assert_eq!(s, ss);
}

#[test]
fn int_is_four_bytes_least_significant_first() {
    let mut out = Writer::new();
    0x0102_0304i32.serialize(&mut out).unwrap();
    assert_eq!(out.as_slice(), vec![4u8, 3, 2, 1]);
    let mut out = Writer::new();
    (-2i32).serialize(&mut out).unwrap();
    assert_eq!(out.as_slice(), vec![0xfeu8, 0xff, 0xff, 0xff]);
    let mut out = Writer::new();
    (-49302394i32).serialize(&mut out).unwrap();
    assert_eq!(out.as_slice(), vec![134u8, 180, 15, 253]);
}

#[test]
fn int_is_read_least_significant_first() {
    let data = [4u8, 3, 2, 1, 0xfe, 0xff, 0xff, 0xff];
    let mut input = Reader::new(&data);
    assert_eq!(i32::deserialize(&mut input), Ok(0x0102_0304));
    assert_eq!(input.position(), 4);
    assert_eq!(i32::deserialize(&mut input), Ok(-2));
    assert_eq!(input.position(), 8);
}

#[test]
fn long_is_eight_bytes_least_significant_first() {
    let mut out = Writer::new();
    (-493023949029i64).serialize(&mut out).unwrap();
    assert_eq!(out.as_slice(), vec![27u8, 143, 123, 53, 141, 255, 255, 255]);
    let mut out = Writer::new();
    0x0102_0304_0506_0708i64.serialize(&mut out).unwrap();
    assert_eq!(out.as_slice(), vec![8u8, 7, 6, 5, 4, 3, 2, 1]);
    let mut input = Reader::new(out.as_slice());
    assert_eq!(i64::deserialize(&mut input), Ok(0x0102_0304_0506_0708));
    assert_eq!(input.position(), 8);
}

#[test]
fn double_is_its_bit_pattern_least_significant_first() {
    let mut out = Writer::new();
    Double::from_bits((-493023.949029f64).to_bits()).serialize(&mut out).unwrap();
    assert_eq!(out.as_slice(), vec![24u8, 66, 206, 203, 127, 23, 30, 193]);
    let mut input = Reader::new(out.as_slice());
    let d = Double::deserialize(&mut input).unwrap();
    assert_eq!(d.bits, 0xc11e_177f_cbce_4218);
    let mut out = Writer::new();
    Double::from_bits(1.0f64.to_bits()).serialize(&mut out).unwrap();
    assert_eq!(out.as_slice(), vec![0u8, 0, 0, 0, 0, 0, 0xf0, 0x3f]);
}

#[test]
fn double_round_trip_keeps_every_pattern() {
    for f in [0.0f64, -0.0, 1.5, f64::MAX, f64::MIN_POSITIVE, f64::INFINITY, f64::NAN] {
        let mut out = Writer::new();
        Double::from_bits(f.to_bits()).serialize(&mut out).unwrap();
        let mut input = Reader::new(out.as_slice());
        let back = Double::deserialize(&mut input).unwrap();
        assert_eq!(back.to_bits(), f.to_bits());
    }
}

#[test]
fn bytes_are_a_length_and_the_bytes() {
    let mut out = Writer::new();
    vec![1u8, 2, 3, 4, 5].serialize(&mut out).unwrap();
    assert_eq!(out.as_slice(), vec![5u8, 0, 0, 0, 1, 2, 3, 4, 5]);
    let mut out = Writer::new();
    Vec::<u8>::new().serialize(&mut out).unwrap();
    assert_eq!(out.as_slice(), vec![0u8, 0, 0, 0]);
}

#[test]
fn string_is_a_length_and_its_utf8() {
    let mut out = Writer::new();
    String::from("puppa").serialize(&mut out).unwrap();
    assert_eq!(out.as_slice(), vec![5u8, 0, 0, 0, b'p', b'u', b'p', b'p', b'a']);
    let mut out = Writer::new();
    String::from("é").serialize(&mut out).unwrap();
    assert_eq!(out.as_slice(), vec![2u8, 0, 0, 0, 0xc3, 0xa9]);
    let mut input = Reader::new(out.as_slice());
    assert_eq!(String::deserialize(&mut input), Ok(String::from("é")));
}

#[test]
fn serialize_appends() {
    let mut out = Writer::new();
    assert!(out.write_all(&[9]));
    7i32.serialize(&mut out).unwrap();
    vec![1u8].serialize(&mut out).unwrap();
    assert_eq!(out.as_slice(), vec![9u8, 7, 0, 0, 0, 1, 0, 0, 0, 1]);
}

#[test]
fn short_input_names_the_kind() {
    let data = [1u8, 2, 3];
    let mut input = Reader::new(&data);
    assert_eq!(i32::deserialize(&mut input), Err(Error::Deserialize("i32".to_string())));
    assert_eq!(input.position(), 0);
    let data = [1u8, 2, 3, 4, 5, 6, 7];
    let mut input = Reader::new(&data);
    assert_eq!(i64::deserialize(&mut input), Err(Error::Deserialize("i64".to_string())));
    assert_eq!(input.position(), 0);
    let mut input = Reader::new(&data);
    assert_eq!(Double::deserialize(&mut input), Err(Error::Deserialize("f64".to_string())));
    assert_eq!(input.position(), 0);
}

#[test]
fn bytes_shorter_than_their_length_fail() {
    let data = [3u8, 0, 0, 0, 1, 2];
    let mut input = Reader::new(&data);
    assert_eq!(Vec::<u8>::deserialize(&mut input), Err(Error::Deserialize("bytes".to_string())));
    assert_eq!(input.position(), 4);
    let data = [3u8, 0];
    let mut input = Reader::new(&data);
    assert_eq!(Vec::<u8>::deserialize(&mut input), Err(Error::Deserialize("i32".to_string())));
    assert_eq!(input.position(), 0);
}

#[test]
fn negative_length_fails() {
    let data = [0xffu8, 0xff, 0xff, 0xff, 1, 2];
    let mut input = Reader::new(&data);
    assert_eq!(Vec::<u8>::deserialize(&mut input), Err(Error::Deserialize("bytes".to_string())));
    assert_eq!(input.position(), 4);
}

#[test]
fn invalid_utf8_is_no_string() {
    let data = [2u8, 0, 0, 0, 0xff, 0xfe];
    let mut input = Reader::new(&data);
    assert_eq!(String::deserialize(&mut input), Err(Error::Deserialize("string".to_string())));
    assert_eq!(input.position(), 6);
    let data = [2u8, 0, 0, 0, b'a'];
    let mut input = Reader::new(&data);
    assert_eq!(String::deserialize(&mut input), Err(Error::Deserialize("string".to_string())));
}

#[test]
fn vector_is_magic_count_and_items() {
    assert_eq!(VECTOR_ID, 0x1CB5C415);
    assert_eq!(VECTOR_ID, 481674261);
    let v: Vec<i32> = vec![1, -1];
    let mut out = Writer::new();
    v.serialize(&mut out).unwrap();
    assert_eq!(
        out.as_slice(),
        vec![0x15u8, 0xc4, 0xb5, 0x1c, 2, 0, 0, 0, 1, 0, 0, 0, 0xff, 0xff, 0xff, 0xff]
    );
    let mut input = Reader::new(out.as_slice());
    assert_eq!(Vec::<i32>::deserialize(&mut input), Ok(v));
    assert_eq!(input.position(), 16);
}

#[test]
fn nested_vectors_round_trip() {
    let v: Vec<Vec<String>> =
        vec![vec![String::from("a"), String::from("bc")], vec![], vec![String::new()]];
    let mut out = Writer::new();
    v.serialize(&mut out).unwrap();
    assert!(out.write_all(&[77]));
    let mut input = Reader::new(out.as_slice());
    assert_eq!(Vec::<Vec<String>>::deserialize(&mut input), Ok(v));
    assert_eq!(input.position(), out.len() - 1);
    assert_eq!(input.available(), 1);
}

#[test]
fn vector_of_bytes_differs_from_bytes() {
    let v: Vec<Vec<u8>> = vec![vec![1, 2]];
    let mut out = Writer::new();
    v.serialize(&mut out).unwrap();
    assert_eq!(out.as_slice(), vec![0x15u8, 0xc4, 0xb5, 0x1c, 1, 0, 0, 0, 2, 0, 0, 0, 1, 2]);
}

#[test]
fn wrong_magic_fails_after_four_bytes() {
    let data = [0x16u8, 0xc4, 0xb5, 0x1c, 1, 0, 0, 0, 5, 0, 0, 0];
    let mut input = Reader::new(&data);
    assert_eq!(Vec::<i32>::deserialize(&mut input), Err(Error::Deserialize("vector".to_string())));
    assert_eq!(input.position(), 4);
}

#[test]
fn vector_reports_the_item_that_fails() {
    let data = [0x15u8, 0xc4, 0xb5, 0x1c, 2, 0, 0, 0, 5, 0, 0, 0, 1];
    let mut input = Reader::new(&data);
    assert_eq!(Vec::<i32>::deserialize(&mut input), Err(Error::Deserialize("i32".to_string())));
    assert_eq!(input.position(), 12);
    let data = [0x15u8, 0xc4, 0xb5, 0x1c, 1, 0, 0, 0, 1, 0, 0, 0, 0xff];
    let mut input = Reader::new(&data);
    assert_eq!(
        Vec::<String>::deserialize(&mut input),
        Err(Error::Deserialize("string".to_string()))
    );
}

#[test]
fn vector_with_negative_count_fails() {
    let data = [0x15u8, 0xc4, 0xb5, 0x1c, 0xff, 0xff, 0xff, 0xff, 5, 0, 0, 0];
    let mut input = Reader::new(&data);
    assert_eq!(Vec::<i32>::deserialize(&mut input), Err(Error::Deserialize("vector".to_string())));
    assert_eq!(input.position(), 8);
}

#[test]
fn boxed_value_has_the_bytes_of_the_value() {
    let mut out = Writer::new();
    Box::new(7i32).serialize(&mut out).unwrap();
    assert_eq!(out.as_slice(), vec![7u8, 0, 0, 0]);
    let mut input = Reader::new(out.as_slice());
    assert_eq!(Box::<i32>::deserialize(&mut input), Ok(Box::new(7)));
}

#[test]
fn length_is_written_as_its_low_bits() {
    assert_eq!(wire_length(0), 0);
    assert_eq!(wire_length(5), 5);
    assert_eq!(wire_length(0x7fff_ffff), i32::MAX);
    assert_eq!(wire_length(0x8000_0000), i32::MIN);
    assert_eq!(wire_length(0xffff_ffff), -1);
    assert_eq!(wire_length(0x1_0000_0005), 5);
}

#[test]
fn reader_takes_what_is_there() {
    let data = [1u8, 2, 3];
    let mut input = Reader::new(&data);
    assert_eq!(input.available(), 3);
    assert_eq!(input.take(2), Some(&data[0..2]));
    assert_eq!(input.position(), 2);
    assert_eq!(input.take(2), None);
    assert_eq!(input.position(), 2);
    assert_eq!(input.take(0), Some(&data[2..2]));
    assert_eq!(input.take(1), Some(&data[2..3]));
    assert_eq!(input.available(), 0);
}

#[test]
fn errors_show_their_kind() {
    let e = Error::deserialize("vector");
    assert_eq!(e, Error::Deserialize("vector".to_string()));
    assert_eq!(e.kind(), "vector");
    assert_eq!(e.message(), "failed to deserialize: vector");
    let e = Error::serialize("bytes");
    assert_eq!(e, Error::Serialize("bytes".to_string()));
    assert_eq!(e.kind(), "bytes");
    assert_eq!(e.message(), "failed to serialize: bytes");
}

#[test]
fn writer_takes_what_it_has_room_for() {
    let mut out = Writer::with_limit(5);
    assert_eq!(out.remaining(), 5);
    assert!(out.write_all(&[1, 2, 3]));
    assert_eq!(out.len(), 3);
    assert_eq!(out.remaining(), 2);
    assert!(!out.write_all(&[4, 5, 6]));
    assert_eq!(out.as_slice(), vec![1u8, 2, 3, 4, 5]);
    assert_eq!(out.remaining(), 0);
    assert!(out.write_all(&[]));
    assert!(!out.write_all(&[7]));
    assert_eq!(out.into_bytes(), vec![1u8, 2, 3, 4, 5]);
    let out = Writer::new();
    assert_eq!(out.remaining(), usize::MAX);
    assert_eq!(out.len(), 0);
}

#[test]
fn a_full_writer_names_the_kind() {
    let mut out = Writer::with_limit(3);
    assert_eq!(7i32.serialize(&mut out), Err(Error::Serialize("i32".to_string())));
    assert_eq!(out.as_slice(), vec![7u8, 0, 0]);
    let mut out = Writer::with_limit(7);
    assert_eq!(7i64.serialize(&mut out), Err(Error::Serialize("i64".to_string())));
    assert_eq!(out.as_slice(), vec![7u8, 0, 0, 0, 0, 0, 0]);
    let mut out = Writer::with_limit(0);
    assert_eq!(Double::from_bits(1).serialize(&mut out), Err(Error::Serialize("f64".to_string())));
    assert_eq!(out.len(), 0);
    let mut out = Writer::with_limit(4);
    assert_eq!(7i32.serialize(&mut out), Ok(()));
    assert_eq!(out.as_slice(), vec![7u8, 0, 0, 0]);
}

#[test]
fn bytes_that_do_not_fit_fail_where_the_room_ends() {
    let b = vec![1u8, 2, 3];
    let mut out = Writer::with_limit(2);
    assert_eq!(b.serialize(&mut out), Err(Error::Serialize("i32".to_string())));
    assert_eq!(out.as_slice(), vec![3u8, 0]);
    let mut out = Writer::with_limit(4);
    assert_eq!(b.serialize(&mut out), Err(Error::Serialize("bytes".to_string())));
    assert_eq!(out.as_slice(), vec![3u8, 0, 0, 0]);
    let mut out = Writer::with_limit(6);
    assert_eq!(b.serialize(&mut out), Err(Error::Serialize("bytes".to_string())));
    assert_eq!(out.as_slice(), vec![3u8, 0, 0, 0, 1, 2]);
    let mut out = Writer::with_limit(7);
    assert_eq!(b.serialize(&mut out), Ok(()));
    assert_eq!(out.as_slice(), vec![3u8, 0, 0, 0, 1, 2, 3]);
}

#[test]
fn a_string_that_does_not_fit_fails_as_a_string() {
    let s = String::from("puppa");
    for limit in [0usize, 3, 4, 8] {
        let mut out = Writer::with_limit(limit);
        assert_eq!(s.serialize(&mut out), Err(Error::Serialize("string".to_string())));
        assert_eq!(out.len(), limit);
    }
    let mut out = Writer::with_limit(9);
    assert_eq!(s.serialize(&mut out), Ok(()));
}

#[test]
fn a_vector_that_does_not_fit_names_the_part_that_fails() {
    let v: Vec<Vec<u8>> = vec![vec![1], vec![2, 3]];
    let whole = vec![0x15u8, 0xc4, 0xb5, 0x1c, 2, 0, 0, 0, 1, 0, 0, 0, 1, 2, 0, 0, 0, 2, 3];
    let kinds = [
        (0usize, "i32"),
        (3, "i32"),
        (4, "i32"),
        (7, "i32"),
        (8, "i32"),
        (11, "i32"),
        (12, "bytes"),
        (13, "i32"),
        (16, "i32"),
        (17, "bytes"),
        (18, "bytes"),
    ];
    for (limit, kind) in kinds {
        let mut out = Writer::with_limit(limit);
        assert_eq!(v.serialize(&mut out), Err(Error::Serialize(kind.to_string())));
        assert_eq!(out.as_slice(), &whole[..limit]);
    }
    let mut out = Writer::with_limit(19);
    assert_eq!(v.serialize(&mut out), Ok(()));
    assert_eq!(out.as_slice(), whole);
}

#[test]
fn a_short_read_says_how_many_bytes_it_lacks() {
    let data = [1u8, 2, 3];
    let mut input = Reader::new(&data);
    assert_eq!(input.missing(), 0);
    assert_eq!(input.take(5), None);
    assert_eq!(input.missing(), 2);
    assert_eq!(input.take(3), Some(&data[..]));
    assert_eq!(input.missing(), 0);
    assert_eq!(input.take(1), None);
    assert_eq!(input.missing(), 1);
    input.reject();
    assert_eq!(input.missing(), 0);
    assert_eq!(input.position(), 3);
}

#[test]
fn a_failure_for_want_of_bytes_says_how_many() {
    let data = [1u8, 2, 3];
    let mut input = Reader::new(&data);
    assert!(i32::deserialize(&mut input).is_err());
    assert_eq!(input.missing(), 1);
    let mut input = Reader::new(&data);
    assert!(i64::deserialize(&mut input).is_err());
    assert_eq!(input.missing(), 5);
    let mut input = Reader::new(&data[..0]);
    assert!(Double::deserialize(&mut input).is_err());
    assert_eq!(input.missing(), 8);
    let data = [6u8, 0, 0, 0, b'a', b'b'];
    let mut input = Reader::new(&data);
    assert_eq!(String::deserialize(&mut input), Err(Error::Deserialize("string".to_string())));
    assert_eq!(input.missing(), 4);
    let mut input = Reader::new(&data[..2]);
    assert_eq!(Vec::<u8>::deserialize(&mut input), Err(Error::Deserialize("i32".to_string())));
    assert_eq!(input.missing(), 2);
    let data = [0x15u8, 0xc4, 0xb5, 0x1c, 2, 0, 0, 0, 5, 0, 0, 0, 1];
    let mut input = Reader::new(&data);
    assert!(Vec::<i32>::deserialize(&mut input).is_err());
    assert_eq!(input.missing(), 3);
    let mut input = Reader::new(&data[..6]);
    assert!(Vec::<i32>::deserialize(&mut input).is_err());
    assert_eq!(input.missing(), 2);
}

#[test]
fn a_failure_for_another_reason_lacks_nothing() {
    let data = [0u8, 0, 0, 0, 1];
    let mut input = Reader::new(&data);
    assert_eq!(Vec::<i32>::deserialize(&mut input), Err(Error::Deserialize("vector".to_string())));
    assert_eq!(input.missing(), 0);
    let data = [0x15u8, 0xc4, 0xb5, 0x1c, 0xff, 0xff, 0xff, 0xff];
    let mut input = Reader::new(&data);
    assert!(Vec::<i32>::deserialize(&mut input).is_err());
    assert_eq!(input.missing(), 0);
    let data = [0xffu8, 0xff, 0xff, 0xff];
    let mut input = Reader::new(&data);
    assert!(Vec::<u8>::deserialize(&mut input).is_err());
    assert_eq!(input.missing(), 0);
    let data = [1u8, 0, 0, 0, 0xff];
    let mut input = Reader::new(&data);
    assert!(String::deserialize(&mut input).is_err());
    assert_eq!(input.missing(), 0);
    let data = [7u8, 0, 0, 0];
    let mut input = Reader::new(&data);
    assert_eq!(i32::deserialize(&mut input), Ok(7));
    assert_eq!(input.missing(), 0);
}
