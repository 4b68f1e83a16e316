use py_marshal::read::errors::{Error, IoErrorKind};
use py_marshal::read::{marshal_load_ex, marshal_loads, MarshalLoadExOptions};
use py_marshal::Obj;

fn parse_float(text: &str) -> Option<u64> {
    text.parse::<f64>().ok().map(f64::to_bits)
}

fn fails(bytes: &[u8]) -> Error {
    marshal_loads(bytes, parse_float).unwrap_err()
}

#[test]
fn empty_input_is_eof() {
    assert!(matches!(fails(b""), Error::Io(IoErrorKind::UnexpectedEof)));
}

#[test]
fn unknown_tag_is_invalid_type() {
    match fails(b"!") {
        Error::InvalidType { spec } => assert_eq!(spec, b'!'),
        other => panic!("{:?}", other),
    }
}

#[test]
fn invalid_type_reports_the_code_without_the_flag() {
    // 0xa1 is '!' with the reference flag.
    match fails(b"\xa1") {
        Error::InvalidType { spec } => assert_eq!(spec, 0x21),
        other => panic!("{:?}", other),
    }
}

#[test]
fn question_mark_is_invalid_type() {
    match fails(b"?") {
        Error::InvalidType { spec } => assert_eq!(spec, b'?'),
        other => panic!("{:?}", other),
    }
    match fails(b"\xbf") {
        Error::InvalidType { spec } => assert_eq!(spec, b'?'),
        other => panic!("{:?}", other),
    }
}

#[test]
fn bare_null_is_unexpected_null() {
    assert!(matches!(fails(b"0"), Error::UnexpectedNull));
    // The flag changes nothing for the null tag.
    assert!(matches!(fails(b"\xb0"), Error::UnexpectedNull));
}

#[test]
fn null_inside_a_tuple_is_unexpected_null() {
    assert!(matches!(fails(b")\x010"), Error::UnexpectedNull));
    assert!(matches!(fails(b"[\x02\x00\x00\x00N0"), Error::UnexpectedNull));
    assert!(matches!(fails(b"<\x01\x00\x00\x000"), Error::UnexpectedNull));
}

#[test]
fn digit_out_of_range() {
    // One digit, 0x8000: the smallest that does not fit in 15 bits.
    match fails(b"l\x01\x00\x00\x00\x00\x80") {
        Error::DigitOutOfRange { digit } => assert_eq!(digit, 0x8000),
        other => panic!("{:?}", other),
    }
    match fails(b"l\x02\x00\x00\x00\xff\xff\x01\x00") {
        Error::DigitOutOfRange { digit } => assert_eq!(digit, 0xffff),
        other => panic!("{:?}", other),
    }
}

#[test]
fn digit_out_of_range_comes_before_a_missing_digit() {
    // Two digits announced, the first is out of range, the second is missing.
    assert!(matches!(
        fails(b"l\x02\x00\x00\x00\x00\x80"),
        Error::DigitOutOfRange { digit: 0x8000 }
    ));
}

#[test]
fn largest_digit_is_accepted() {
    let v = marshal_loads(b"l\x01\x00\x00\x00\xff\x7f", parse_float).unwrap();
    assert_eq!(*v.extract_long().unwrap(), num_bigint::BigInt::from(0x7fff));
}

#[test]
fn unnormalized_long() {
    assert!(matches!(fails(b"l\x01\x00\x00\x00\x00\x00"), Error::UnnormalizedLong));
    assert!(matches!(
        fails(b"l\xfe\xff\xff\xff\x01\x00\x00\x00"),
        Error::UnnormalizedLong
    ));
}

#[test]
fn truncated_long_is_eof() {
    assert!(matches!(fails(b"l"), Error::Io(IoErrorKind::UnexpectedEof)));
    assert!(matches!(fails(b"l\x01\x00\x00"), Error::Io(IoErrorKind::UnexpectedEof)));
    assert!(matches!(
        fails(b"l\x02\x00\x00\x00\x01\x00\x01"),
        Error::Io(IoErrorKind::UnexpectedEof)
    ));
}

#[test]
fn unhashable_set_element() {
    // A set whose one element is a list.
    match fails(b"<\x01\x00\x00\x00[\x00\x00\x00\x00") {
        Error::Unhashable(Obj::List(items)) => assert!(items.is_empty()),
        other => panic!("{:?}", other),
    }
}

#[test]
fn unhashable_dict_key() {
    // A dictionary whose key is a list; the value is read before the key
    // is refused.
    match fails(b"{[\x00\x00\x00\x00N0") {
        Error::Unhashable(Obj::List(items)) => assert!(items.is_empty()),
        other => panic!("{:?}", other),
    }
    // So a missing value is reported first.
    assert!(matches!(
        fails(b"{[\x00\x00\x00\x00"),
        Error::Io(IoErrorKind::UnexpectedEof)
    ));
}

#[test]
fn unhashable_part_of_a_tuple_key_is_the_offender() {
    // The key is the tuple ("a", b"x"): the byte string is what cannot be a key.
    match fails(b"{)\x02\xda\x01as\x01\x00\x00\x00xN0") {
        Error::Unhashable(Obj::Bytes(b)) => assert_eq!(&b[..], b"x"),
        other => panic!("{:?}", other),
    }
}

#[test]
fn first_unhashable_part_wins() {
    // The tuple ([], b"x"): the list comes first.
    match fails(b"<\x01\x00\x00\x00)\x02[\x00\x00\x00\x00s\x01\x00\x00\x00x") {
        Error::Unhashable(Obj::List(_)) => {}
        other => panic!("{:?}", other),
    }
}

#[test]
fn invalid_ref_out_of_range() {
    assert!(matches!(fails(b"r\x00\x00\x00\x00"), Error::InvalidRef));
    assert!(matches!(
        fails(b"[\x02\x00\x00\x00\xda\x01ar\x01\x00\x00\x00"),
        Error::InvalidRef
    ));
}

#[test]
fn invalid_ref_to_a_record_that_is_still_read() {
    // A flagged list whose element refers to the list itself.
    assert!(matches!(
        fails(b"\xdb\x01\x00\x00\x00r\x00\x00\x00\x00"),
        Error::InvalidRef
    ));
    // The same with a tuple, a dictionary value and a frozen set.
    assert!(matches!(fails(b"\xa9\x01r\x00\x00\x00\x00"), Error::InvalidRef));
    assert!(matches!(fails(b"\xfbNr\x00\x00\x00\x000"), Error::InvalidRef));
    assert!(matches!(
        fails(b"\xbe\x01\x00\x00\x00r\x00\x00\x00\x00"),
        Error::InvalidRef
    ));
}

#[test]
fn a_set_that_holds_itself_is_unhashable() {
    // A flagged set stands among the references as soon as it is begun, so
    // the reference is read; what it reads, a set, cannot be an element.
    match fails(b"\xbc\x01\x00\x00\x00r\x00\x00\x00\x00") {
        Error::Unhashable(Obj::PySet(_)) => {}
        other => panic!("{:?}", other),
    }
}

#[test]
fn truncated_ref_is_eof() {
    assert!(matches!(fails(b"r\x00\x00"), Error::Io(IoErrorKind::UnexpectedEof)));
}

#[test]
fn invalid_utf8() {
    assert!(matches!(fails(b"z\x01\xff"), Error::Utf8));
    assert!(matches!(fails(b"u\x02\x00\x00\x00\xc3\x28"), Error::Utf8));
    // A lone surrogate, an overlong form and a truncated sequence.
    assert!(matches!(fails(b"z\x03\xed\xa0\x80"), Error::Utf8));
    assert!(matches!(fails(b"z\x02\xc0\x80"), Error::Utf8));
    assert!(matches!(fails(b"z\x01\xc3"), Error::Utf8));
}

#[test]
fn bytes_need_not_be_utf8() {
    let v = marshal_loads(b"s\x02\x00\x00\x00\xff\xfe", parse_float).unwrap();
    assert_eq!(&v.extract_bytes().unwrap()[..], b"\xff\xfe");
}

#[test]
fn truncated_string_is_eof() {
    assert!(matches!(fails(b"z\x05ab"), Error::Io(IoErrorKind::UnexpectedEof)));
    assert!(matches!(
        fails(b"s\xff\xff\xff\xffab"),
        Error::Io(IoErrorKind::UnexpectedEof)
    ));
    assert!(matches!(fails(b"u\x01\x00"), Error::Io(IoErrorKind::UnexpectedEof)));
}

#[test]
fn parse_float_error() {
    assert!(matches!(fails(b"f\x03abc"), Error::ParseFloat));
    assert!(matches!(fails(b"f\x00"), Error::ParseFloat));
    assert!(matches!(fails(b"x\x011\x01?"), Error::ParseFloat));
}

#[test]
fn float_text_must_be_utf8_first() {
    assert!(matches!(fails(b"f\x01\xff"), Error::Utf8));
}

#[test]
fn truncated_float() {
    assert!(matches!(fails(b"f"), Error::Io(IoErrorKind::UnexpectedEof)));
    assert!(matches!(fails(b"f\x031."), Error::Io(IoErrorKind::UnexpectedEof)));
    assert!(matches!(fails(b"g\x00\x00\x00"), Error::Io(IoErrorKind::UnexpectedEof)));
    assert!(matches!(
        fails(b"y\x00\x00\x00\x00\x00\x00\x00\x00"),
        Error::Io(IoErrorKind::UnexpectedEof)
    ));
}

#[test]
fn eof_comes_before_the_depth_limit() {
    // 900 open tuples and no byte for the next tag.
    assert!(matches!(
        fails(&b")\x01".repeat(900)),
        Error::Io(IoErrorKind::UnexpectedEof)
    ));
}

#[test]
fn depth_limit_comes_before_the_type() {
    // The 901st tag names no type, but it stands too deep first.
    let mut input = b")\x01".repeat(900);
    input.push(b'!');
    assert!(matches!(fails(&input), Error::RecursionLimitExceeded));
}

fn code_fields(names: &[u8], code: &[u8]) -> Vec<u8> {
    let mut input: Vec<u8> = Vec::new();
    input.push(b'c');
    for _ in 0..6 {
        input.extend_from_slice(&[0, 0, 0, 0]);
    }
    input.extend_from_slice(code);
    input.extend_from_slice(b")\x00");
    input.extend_from_slice(names);
    input.extend_from_slice(b")\x00)\x00)\x00");
    input.extend_from_slice(b"z\x01fz\x01n");
    input.extend_from_slice(&[7, 0, 0, 0]);
    input.extend_from_slice(b"s\x00\x00\x00\x00");
    input
}

#[test]
fn code_with_good_fields_is_read() {
    let input = code_fields(b")\x01z\x01a", b"s\x01\x00\x00\x00d");
    let code = marshal_loads(&input, parse_float).unwrap().extract_code().unwrap();
    assert_eq!(code.names.len(), 1);
    assert_eq!(*code.names[0], "a");
    assert_eq!(&code.code[..], b"d");
    assert_eq!(*code.filename, "f");
    assert_eq!(*code.name, "n");
    assert_eq!(code.firstlineno, 7);
}

#[test]
fn code_names_must_be_a_tuple() {
    let input = code_fields(b"[\x00\x00\x00\x00", b"s\x00\x00\x00\x00");
    match marshal_loads(&input, parse_float).unwrap_err() {
        Error::TypeError(Obj::List(_)) => {}
        other => panic!("{:?}", other),
    }
}

#[test]
fn code_names_must_hold_strings() {
    // The tuple ("a", None, 1): `None` is the first that is no text.
    let input = code_fields(b")\x03z\x01aNi\x01\x00\x00\x00", b"s\x00\x00\x00\x00");
    match marshal_loads(&input, parse_float).unwrap_err() {
        Error::TypeError(Obj::PyNone) => {}
        other => panic!("{:?}", other),
    }
}

#[test]
fn code_bytes_must_be_bytes() {
    let input = code_fields(b")\x00", b"z\x01d");
    match marshal_loads(&input, parse_float).unwrap_err() {
        Error::TypeError(Obj::String(s)) => assert_eq!(*s, "d"),
        other => panic!("{:?}", other),
    }
}

#[test]
fn code_field_must_not_be_null() {
    let input = code_fields(b"0", b"s\x00\x00\x00\x00");
    assert!(matches!(
        marshal_loads(&input, parse_float).unwrap_err(),
        Error::UnexpectedNull
    ));
}

#[test]
fn wrong_type_comes_before_what_follows_it() {
    // The bytecode field is a text, and the input ends right behind it.
    let mut input: Vec<u8> = Vec::new();
    input.push(b'c');
    for _ in 0..6 {
        input.extend_from_slice(&[0, 0, 0, 0]);
    }
    input.extend_from_slice(b"z\x01d");
    assert!(matches!(
        marshal_loads(&input, parse_float).unwrap_err(),
        Error::TypeError(_)
    ));
}

#[test]
fn code_without_posonlyargcount_is_one_field_shorter() {
    let mut input: Vec<u8> = Vec::new();
    input.push(b'c');
    for i in 1..=5u8 {
        input.extend_from_slice(&[i, 0, 0, 0]);
    }
    input.extend_from_slice(b"s\x00\x00\x00\x00)\x00)\x00)\x00)\x00)\x00z\x01fz\x01n");
    input.extend_from_slice(&[9, 0, 0, 0]);
    input.extend_from_slice(b"s\x00\x00\x00\x00");
    let code = marshal_load_ex(
        &input,
        MarshalLoadExOptions {
            has_posonlyargcount: false,
        },
        parse_float,
    )
    .unwrap()
    .extract_code()
    .unwrap();
    assert_eq!(code.argcount, 1);
    assert_eq!(code.posonlyargcount, 0);
    assert_eq!(code.kwonlyargcount, 2);
    assert_eq!(code.nlocals, 3);
    assert_eq!(code.stacksize, 4);
    assert_eq!(code.flags.bits(), 5);
    assert_eq!(code.firstlineno, 9);
    // Read with the field expected, the same bytes are short by four.
    assert!(marshal_loads(&input, parse_float).is_err());
}

#[test]
fn code_with_posonlyargcount() {
    let mut input: Vec<u8> = Vec::new();
    input.push(b'c');
    for i in 1..=6u8 {
        input.extend_from_slice(&[i, 0, 0, 0]);
    }
    input.extend_from_slice(b"s\x00\x00\x00\x00)\x00)\x00)\x00)\x00)\x00z\x01fz\x01n");
    input.extend_from_slice(&[9, 0, 0, 0]);
    input.extend_from_slice(b"s\x00\x00\x00\x00");
    let code = marshal_loads(&input, parse_float).unwrap().extract_code().unwrap();
    assert_eq!(code.argcount, 1);
    assert_eq!(code.posonlyargcount, 2);
    assert_eq!(code.kwonlyargcount, 3);
    assert_eq!(code.nlocals, 4);
    assert_eq!(code.stacksize, 5);
    assert_eq!(code.flags.bits(), 6);
}

#[test]
fn unknown_code_flag_bits_are_dropped() {
    let mut input: Vec<u8> = Vec::new();
    input.push(b'c');
    for _ in 0..5 {
        input.extend_from_slice(&[0, 0, 0, 0]);
    }
    input.extend_from_slice(&[0xff, 0xff, 0xff, 0xff]);
    input.extend_from_slice(b"s\x00\x00\x00\x00)\x00)\x00)\x00)\x00)\x00z\x01fz\x01n");
    input.extend_from_slice(&[9, 0, 0, 0]);
    input.extend_from_slice(b"s\x00\x00\x00\x00");
    let code = marshal_loads(&input, parse_float).unwrap().extract_code().unwrap();
    assert_eq!(code.flags.bits(), 0x1ff3ff);
}
