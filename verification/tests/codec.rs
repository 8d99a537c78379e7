use jdwp_client::jdwp::{Deserializer, Error, IDSizes, Serializer};

fn sizes(object: i32) -> IDSizes {
    IDSizes { field: 8, method: 8, object, reference_type: 8, frame: 8 }
}

fn encoder() -> Serializer {
    Serializer(Vec::new(), sizes(8))
}

#[test]
fn write_untagged_is_big_endian() {
    let mut s = encoder();
    s.write_untagged(0x0102_0304_0506_0708, 8);
    s.write_untagged(0x0102_0304_0506_0708, 3);
    assert_eq!(s.0, vec![1, 2, 3, 4, 5, 6, 7, 8, 6, 7, 8]);
}

#[test]
fn write_untagged_with_no_width_writes_nothing() {
    let mut s = encoder();
    s.write_untagged(0xff, 0);
    s.write_untagged(0xff, -1);
    s.write_untagged(0xff, i32::MIN);
    assert!(s.0.is_empty());
}

#[test]
fn write_untagged_keeps_what_was_there() {
    let mut s = Serializer(vec![9, 9], sizes(8));
    s.write_untagged(0xabcd, 2);
    assert_eq!(s.0, vec![9, 9, 0xab, 0xcd]);
    assert_eq!(s.1, sizes(8));
}

#[test]
fn write_array_appends_bytes() {
    let mut s = encoder();
    s.write_array(&[1, 2, 3]);
    s.write_array(&[]);
    s.write_array(&[255]);
    assert_eq!(s.0, vec![1, 2, 3, 255]);
}

#[test]
fn write_ids_writes_each_in_the_width() {
    let mut s = encoder();
    s.write_ids(&[1, 0x0203, 0xffff_ffff_ff], 2);
    assert_eq!(s.0, vec![0, 1, 2, 3, 0xff, 0xff]);
    let mut none = encoder();
    none.write_ids(&[], 8);
    assert!(none.0.is_empty());
}

#[test]
fn scalar_encodings_are_exact() {
    let mut s = encoder();
    s.serialize_byte(0x7f);
    s.serialize_bool(true);
    s.serialize_bool(false);
    s.serialize_char(0x1234);
    s.serialize_int(1);
    s.serialize_int(-1);
    s.serialize_int(i32::MIN);
    s.serialize_int(i32::MAX);
    s.serialize_long(-2);
    s.serialize_long(i64::MAX);
    assert_eq!(
        s.0,
        vec![
            0x7f, 1, 0, 0x12, 0x34, 0, 0, 0, 1, 0xff, 0xff, 0xff, 0xff, 0x80, 0, 0, 0, 0x7f, 0xff,
            0xff, 0xff, 0xff, 0xff, 0xff, 0xff, 0xff, 0xff, 0xff, 0xfe, 0x7f, 0xff, 0xff, 0xff,
            0xff, 0xff, 0xff, 0xff,
        ]
    );
}

#[test]
fn object_ids_use_the_negotiated_width() {
    let mut four = Serializer(Vec::new(), sizes(4));
    four.serialize_object(0x0102_0304_0506_0708);
    assert_eq!(four.0, vec![5, 6, 7, 8]);
    let mut eight = Serializer(Vec::new(), sizes(8));
    eight.serialize_object(0x0102_0304_0506_0708);
    assert_eq!(eight.0, vec![1, 2, 3, 4, 5, 6, 7, 8]);
    let mut unset = Serializer(Vec::new(), IDSizes::default());
    unset.serialize_object(7);
    assert!(unset.0.is_empty());

    let mut d = Deserializer(&four.0[..], sizes(4));
    assert_eq!(d.deserialize_object(), Ok(0x0506_0708));
    let mut e = Deserializer(&eight.0[..], sizes(8));
    assert_eq!(e.deserialize_object(), Ok(0x0102_0304_0506_0708));
}

#[test]
fn object_ids_need_a_legal_width_to_be_read() {
    let data = [1u8, 2, 3, 4, 5, 6, 7, 8, 9, 10];
    let mut unset = Deserializer(&data[..], IDSizes::default());
    assert_eq!(unset.deserialize_object(), Err(Error::IllegalArgument));
    let mut wide = Deserializer(&data[..], sizes(9));
    assert_eq!(wide.deserialize_object(), Err(Error::IllegalArgument));
}

#[test]
fn strings_carry_their_byte_length() {
    let mut s = encoder();
    s.serialize_string(&String::from("demo"));
    s.serialize_string(&String::new());
    s.serialize_string(&String::from("h\u{e9}\u{20ac}\u{1f600}"));
    assert_eq!(
        s.0,
        vec![
            0, 0, 0, 4, b'd', b'e', b'm', b'o', 0, 0, 0, 0, 0, 0, 0, 10, b'h', 0xc3, 0xa9, 0xe2,
            0x82, 0xac, 0xf0, 0x9f, 0x98, 0x80,
        ]
    );
}

#[test]
fn read_untagged_rejects_bad_widths() {
    let data = [1u8, 2, 3, 4, 5, 6, 7, 8, 9];
    let mut d = Deserializer(&data[..], sizes(8));
    assert_eq!(d.read_untagged(0), Err(Error::IllegalArgument));
    assert_eq!(d.read_untagged(-3), Err(Error::IllegalArgument));
    assert_eq!(d.read_untagged(9), Err(Error::IllegalArgument));
    assert_eq!(d.0.len(), 9);
}

#[test]
fn read_untagged_reports_exhausted_input() {
    let data = [1u8, 2, 3, 4, 5, 6, 7, 8, 9];
    let mut d = Deserializer(&data[..], sizes(8));
    assert_eq!(d.read_untagged(2), Ok(0x0102));
    assert_eq!(d.read_untagged(8), Err(Error::AbsentInformation));
    assert_eq!(d.0, &data[2..]);
    assert_eq!(d.read_untagged(7), Ok(0x03_0405_0607_0809));
    assert_eq!(d.read_untagged(1), Err(Error::AbsentInformation));
    assert!(d.0.is_empty());
}

#[test]
fn read_array_takes_exactly_what_is_asked() {
    let data = [1u8, 2, 3];
    let mut d = Deserializer(&data[..], sizes(8));
    assert_eq!(d.read_array(0), Ok(vec![]));
    assert_eq!(d.read_array(2), Ok(vec![1, 2]));
    assert_eq!(d.read_array(2), Err(Error::AbsentInformation));
    assert_eq!(d.read_array(1), Ok(vec![3]));
    assert_eq!(d.read_array(usize::MAX), Err(Error::AbsentInformation));
}

#[test]
fn booleans_are_true_unless_zero() {
    let data = [0u8, 1, 2, 0xff];
    let mut d = Deserializer(&data[..], sizes(8));
    assert_eq!(d.deserialize_boolean(), Ok(false));
    assert_eq!(d.deserialize_boolean(), Ok(true));
    assert_eq!(d.deserialize_boolean(), Ok(true));
    assert_eq!(d.deserialize_boolean(), Ok(true));
    assert_eq!(d.deserialize_boolean(), Err(Error::AbsentInformation));
}

#[test]
fn scalars_round_trip_at_their_bounds() {
    let mut s = encoder();
    s.serialize_byte(0);
    s.serialize_byte(u8::MAX);
    s.serialize_char(0);
    s.serialize_char(u16::MAX);
    for v in [0, 1, -1, i32::MIN, i32::MAX] {
        s.serialize_int(v);
    }
    for v in [0, 1, -1, i64::MIN, i64::MAX] {
        s.serialize_long(v);
    }
    let mut d = Deserializer(&s.0[..], sizes(8));
    assert_eq!(d.deserialize_byte(), Ok(0));
    assert_eq!(d.deserialize_byte(), Ok(u8::MAX));
    assert_eq!(d.deserialize_char(), Ok(0));
    assert_eq!(d.deserialize_char(), Ok(u16::MAX));
    for v in [0, 1, -1, i32::MIN, i32::MAX] {
        assert_eq!(d.deserialize_int(), Ok(v));
    }
    for v in [0, 1, -1, i64::MIN, i64::MAX] {
        assert_eq!(d.deserialize_long(), Ok(v));
    }
    assert!(d.0.is_empty());
}

#[test]
fn strings_round_trip() {
    let texts = ["", "demo", "h\u{e9}\u{20ac}\u{1f600}", "\u{0}", "a\nb"];
    let mut s = encoder();
    for t in texts {
        s.serialize_string(&String::from(t));
    }
    let mut d = Deserializer(&s.0[..], sizes(8));
    for t in texts {
        assert_eq!(d.deserialize_string(), Ok(String::from(t)));
    }
    assert!(d.0.is_empty());
}

#[test]
fn string_with_negative_length_is_invalid_length() {
    let data = [0xffu8, 0xff, 0xff, 0xff, b'a'];
    let mut d = Deserializer(&data[..], sizes(8));
    assert_eq!(d.deserialize_string(), Err(Error::InvalidLength));
    assert_eq!(d.0, &data[..]);
    let least = [0x80u8, 0, 0, 0];
    let mut e = Deserializer(&least[..], sizes(8));
    assert_eq!(e.deserialize_string(), Err(Error::InvalidLength));
}

#[test]
fn string_cut_short_is_absent_information() {
    let data = [0u8, 0, 0, 3, b'a', b'b'];
    let mut d = Deserializer(&data[..], sizes(8));
    assert_eq!(d.deserialize_string(), Err(Error::AbsentInformation));
    assert_eq!(d.0, &data[..]);
    let prefix = [0u8, 0, 0];
    let mut e = Deserializer(&prefix[..], sizes(8));
    assert_eq!(e.deserialize_string(), Err(Error::AbsentInformation));
}

#[test]
fn string_that_is_not_utf8_is_invalid_string() {
    for bad in [
        vec![0u8, 0, 0, 1, 0xff],
        vec![0, 0, 0, 2, 0xc3, 0x28],
        vec![0, 0, 0, 2, 0xc0, 0x80],
        vec![0, 0, 0, 3, 0xed, 0xa0, 0x80],
        vec![0, 0, 0, 1, 0xc3],
    ] {
        let mut d = Deserializer(&bad[..], sizes(8));
        assert_eq!(d.deserialize_string(), Err(Error::InvalidString));
        assert_eq!(d.0, &bad[..]);
    }
}

#[test]
fn string_read_leaves_the_rest() {
    let data = [0u8, 0, 0, 2, 0xc3, 0xa9, 7, 8];
    let mut d = Deserializer(&data[..], sizes(8));
    assert_eq!(d.deserialize_string(), Ok(String::from("\u{e9}")));
    assert_eq!(d.0, &[7u8, 8][..]);
    assert_eq!(d.1, sizes(8));
}

#[test]
fn error_codes_are_the_table() {
    assert_eq!(Error::IllegalArgument.serialize(), 103);
    assert_eq!(Error::AbsentInformation.serialize(), 101);
    assert_eq!(Error::InvalidLength.serialize(), 504);
    assert_eq!(Error::InvalidString.serialize(), 506);
    assert_eq!(Error::Unimplemented.serialize(), 99);
}

#[test]
fn error_codes_round_trip() {
    for e in [
        Error::IllegalArgument,
        Error::AbsentInformation,
        Error::InvalidLength,
        Error::InvalidString,
        Error::Unimplemented,
    ] {
        assert_eq!(Error::deserialize(e.serialize()), Some(e));
    }
}

#[test]
fn unknown_error_codes_are_not_found() {
    let known = [99u16, 101, 103, 504, 506];
    for code in 0..=u16::MAX {
        assert_eq!(Error::deserialize(code).is_some(), known.contains(&code));
    }
}

#[test]
fn id_sizes_start_at_zero() {
    assert_eq!(
        IDSizes::default(),
        IDSizes { field: 0, method: 0, object: 0, reference_type: 0, frame: 0 }
    );
}
