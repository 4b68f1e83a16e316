use num_bigint::BigInt;
use py_marshal::read::errors::Error;
use py_marshal::read::{marshal_load, marshal_load_ex, marshal_loads, MarshalLoadExOptions};
use py_marshal::{ComplexBits, Depth, Obj, ObjHashable};
use std::sync::Arc;

fn parse_float(text: &str) -> Option<u64> {
    text.parse::<f64>().ok().map(f64::to_bits)
}

fn loads(bytes: &[u8]) -> Obj {
    marshal_loads(bytes, parse_float).unwrap()
}

fn long_of(o: Obj) -> BigInt {
    (*o.extract_long().unwrap()).clone()
}

#[test]
fn singletons() {
    assert!(loads(b"N").is_none());
    assert!(loads(b"S").is_stop_iteration());
    assert!(matches!(loads(b"."), Obj::Ellipsis));
    assert!(loads(b"T").is_bool());
    loads(b"N").extract_none().unwrap();
}

#[test]
fn int_is_signed_32_bits() {
    assert_eq!(long_of(loads(b"i\x00\x00\x00\x00")), BigInt::from(0));
    assert_eq!(long_of(loads(b"i\x01\x02\x03\x04")), BigInt::from(0x04030201));
    assert_eq!(long_of(loads(b"i\xff\xff\xff\x7f")), BigInt::from(i32::MAX));
    assert_eq!(long_of(loads(b"i\x00\x00\x00\x80")), BigInt::from(i32::MIN));
    assert_eq!(long_of(loads(b"i\xff\xff\xff\xff")), BigInt::from(-1));
    assert_eq!(long_of(loads(b"i\xfe\xff\xff\xff")), BigInt::from(-2));
}

#[test]
fn int64_is_signed_64_bits() {
    assert_eq!(
        long_of(loads(b"I\x00\x00\x00\x00\x00\x00\x00\x00")),
        BigInt::from(0)
    );
    assert_eq!(
        long_of(loads(b"I\xff\xff\xff\xff\xff\xff\xff\xff")),
        BigInt::from(-1)
    );
    assert_eq!(
        long_of(loads(b"I\x00\x00\x00\x00\x00\x00\x00\x80")),
        BigInt::from(i64::MIN)
    );
    assert_eq!(
        long_of(loads(b"I\xff\xff\xff\xff\xff\xff\xff\x7f")),
        BigInt::from(i64::MAX)
    );
    assert_eq!(
        long_of(loads(b"I\x01\x02\x03\x04\x05\x06\x07\x08")),
        BigInt::from(0x0807060504030201_i64)
    );
}

#[test]
fn long_with_no_digits_is_zero() {
    assert_eq!(long_of(loads(b"l\x00\x00\x00\x00")), BigInt::from(0));
}

#[test]
fn long_positive_and_negative() {
    // One digit 5, with the count 1 and -1.
    assert_eq!(long_of(loads(b"l\x01\x00\x00\x00\x05\x00")), BigInt::from(5));
    assert_eq!(long_of(loads(b"l\xff\xff\xff\xff\x05\x00")), BigInt::from(-5));
    // Two digits: 1 + 2 * 2^15.
    assert_eq!(
        long_of(loads(b"l\x02\x00\x00\x00\x01\x00\x02\x00")),
        BigInt::from(65537)
    );
    assert_eq!(
        long_of(loads(b"l\xfe\xff\xff\xff\x01\x00\x02\x00")),
        BigInt::from(-65537)
    );
    // Three digits: 2^30 + 2^15 + 1.
    assert_eq!(
        long_of(loads(b"l\x03\x00\x00\x00\x01\x00\x01\x00\x01\x00")),
        BigInt::from((1i64 << 30) + (1i64 << 15) + 1)
    );
    // 2^64 = digit 16 at the fifth place: 16 * 2^60.
    assert_eq!(
        long_of(loads(b"l\x05\x00\x00\x00\x00\x00\x00\x00\x00\x00\x00\x00\x10\x00")),
        BigInt::from(1u128 << 64)
    );
}

#[test]
fn binary_float_is_its_bit_pattern() {
    let v = loads(b"g\x00\x00\x00\x00\x00\x00\xf8\x3f");
    assert_eq!(v.clone().extract_float().unwrap(), 0x3ff8_0000_0000_0000);
    assert_eq!(f64::from_bits(v.extract_float().unwrap()), 1.5);
    assert!(loads(b"g\x00\x00\x00\x00\x00\x00\xf8\x3f").is_float());
}

#[test]
fn text_float_is_parsed() {
    assert_eq!(
        f64::from_bits(loads(b"f\x031.5").extract_float().unwrap()),
        1.5
    );
    assert_eq!(
        f64::from_bits(loads(b"f\x04-2e3").extract_float().unwrap()),
        -2000.0
    );
    assert!(f64::from_bits(loads(b"f\x03nan").extract_float().unwrap()).is_nan());
    assert_eq!(
        f64::from_bits(loads(b"f\x03inf").extract_float().unwrap()),
        f64::INFINITY
    );
}

#[test]
fn the_reader_of_decimal_texts_is_the_callers() {
    // A reader that knows one text only.
    let only_one = |text: &str| if text == "one" { Some(1u64) } else { None };
    assert_eq!(
        marshal_loads(b"f\x03one", only_one)
            .unwrap()
            .extract_float()
            .unwrap(),
        1
    );
    assert!(matches!(
        marshal_loads(b"f\x031.5", only_one).unwrap_err(),
        Error::ParseFloat
    ));
    // Binary floats do not go through it.
    assert_eq!(
        marshal_loads(b"g\x00\x00\x00\x00\x00\x00\xf8\x3f", only_one)
            .unwrap()
            .extract_float()
            .unwrap(),
        0x3ff8_0000_0000_0000
    );
}

#[test]
fn complex_text_and_binary() {
    match loads(b"x\x031.5\x02-2") {
        Obj::Complex(ComplexBits { re, im }) => {
            assert_eq!(f64::from_bits(re), 1.5);
            assert_eq!(f64::from_bits(im), -2.0);
        }
        other => panic!("{:?}", other),
    }
    match loads(b"y\x00\x00\x00\x00\x00\x00\xf8\x3f\x00\x00\x00\x00\x00\x00\x00\xc0") {
        Obj::Complex(ComplexBits { re, im }) => {
            assert_eq!(f64::from_bits(re), 1.5);
            assert_eq!(f64::from_bits(im), -2.0);
        }
        other => panic!("{:?}", other),
    }
}

#[test]
fn every_string_tag_reads_a_string() {
    for tag in [b'a', b'A', b'u', b't'] {
        let mut input = vec![tag, 2, 0, 0, 0];
        input.extend_from_slice(b"hi");
        assert_eq!(*loads(&input).extract_string().unwrap(), "hi");
    }
    for tag in [b'z', b'Z'] {
        let mut input = vec![tag, 2];
        input.extend_from_slice(b"hi");
        assert_eq!(*loads(&input).extract_string().unwrap(), "hi");
    }
}

#[test]
fn tuples_and_lists() {
    let t = loads(b")\x03NTF").extract_tuple().unwrap();
    assert_eq!(t.len(), 3);
    assert!(t[0].is_none());
    assert_eq!(t[1].clone().extract_bool().unwrap(), true);
    assert_eq!(t[2].clone().extract_bool().unwrap(), false);
    let t = loads(b"(\x02\x00\x00\x00NN").extract_tuple().unwrap();
    assert_eq!(t.len(), 2);
    let l = loads(b"[\x01\x00\x00\x00)\x00").extract_list().unwrap();
    assert_eq!(l.len(), 1);
    assert!(l[0].is_tuple());
    assert!(loads(b"[\x00\x00\x00\x00").is_list());
    assert!(loads(b")\x00").extract_tuple().unwrap().is_empty());
}

#[test]
fn extract_of_another_kind_gives_the_value_back() {
    let v = loads(b"T");
    match v.extract_long() {
        Err(Obj::Bool(true)) => {}
        other => panic!("{:?}", other),
    }
    match loads(b"N").extract_bool() {
        Err(Obj::PyNone) => {}
        other => panic!("{:?}", other),
    }
    match loads(b"z\x01a").extract_bytes() {
        Err(Obj::String(s)) => assert_eq!(*s, "a"),
        other => panic!("{:?}", other),
    }
    assert!(loads(b")\x00").extract_list().is_err());
    assert!(loads(b"[\x00\x00\x00\x00").extract_tuple().is_err());
    assert!(loads(b"{0").extract_set().is_err());
    assert!(loads(b"<\x00\x00\x00\x00").extract_frozenset().is_err());
    assert!(loads(b">\x00\x00\x00\x00").extract_dict().is_err());
    assert!(loads(b"N").extract_code().is_err());
    assert!(loads(b"N").extract_string().is_err());
    assert!(loads(b"N").extract_float().is_err());
    assert!(loads(b"T").extract_none().is_err());
    assert!(loads(b"T").extract_stop_iteration().is_err());
}

#[test]
fn is_tells_the_kind() {
    assert!(loads(b"i\x00\x00\x00\x00").is_long());
    assert!(!loads(b"i\x00\x00\x00\x00").is_float());
    assert!(loads(b"s\x00\x00\x00\x00").is_bytes());
    assert!(loads(b"z\x00").is_string());
    assert!(loads(b"{0").is_dict());
    assert!(loads(b"<\x00\x00\x00\x00").is_set());
    assert!(loads(b">\x00\x00\x00\x00").is_frozenset());
    assert!(!loads(b">\x00\x00\x00\x00").is_set());
    assert!(!loads(b"N").is_code());
}

#[test]
fn dict_ends_at_null_in_key_position() {
    let d = loads(b"{\xda\x01ai\x01\x00\x00\x000").extract_dict().unwrap();
    assert_eq!(d.len(), 1);
    let d = loads(b"{0").extract_dict().unwrap();
    assert_eq!(d.len(), 0);
    assert!(d.is_empty());
}

#[test]
fn dict_ends_at_null_in_value_position() {
    // The key "b" has the null tag as its value: the dictionary ends
    // there and the key is dropped.
    let d = loads(b"{\xda\x01ai\x01\x00\x00\x00\xda\x01b0")
        .extract_dict()
        .unwrap();
    assert_eq!(d.len(), 1);
    assert!(d
        .get(&ObjHashable::String(Arc::new("a".to_owned())))
        .is_some());
    assert!(d
        .get(&ObjHashable::String(Arc::new("b".to_owned())))
        .is_none());
}

#[test]
fn dict_keeps_the_first_key_and_the_last_value() {
    // {1: "x", 1: "y"}.
    let d = loads(b"{i\x01\x00\x00\x00z\x01xi\x01\x00\x00\x00z\x01y0")
        .extract_dict()
        .unwrap();
    assert_eq!(d.len(), 1);
    let k = ObjHashable::Long(Arc::new(BigInt::from(1)));
    assert_eq!(*d.get(&k).unwrap().clone().extract_string().unwrap(), "y");
    assert!(d.contains_key(&k));
    let (key, value) = d.entry(0).unwrap();
    assert!(key.eq_key(&k));
    assert_eq!(*value.clone().extract_string().unwrap(), "y");
    assert!(d.entry(1).is_none());
}

#[test]
fn set_holds_each_element_once() {
    let s = loads(b"<\x03\x00\x00\x00i\x01\x00\x00\x00i\x02\x00\x00\x00i\x01\x00\x00\x00")
        .extract_set()
        .unwrap();
    assert_eq!(s.len(), 2);
    assert!(s.contains(&ObjHashable::Long(Arc::new(BigInt::from(1)))));
    assert!(s.contains(&ObjHashable::Long(Arc::new(BigInt::from(2)))));
    assert!(!s.contains(&ObjHashable::Long(Arc::new(BigInt::from(3)))));
    assert!(s.get(0).unwrap().eq_key(&ObjHashable::Long(Arc::new(BigInt::from(1)))));
    assert!(s.get(1).unwrap().eq_key(&ObjHashable::Long(Arc::new(BigInt::from(2)))));
    assert!(s.get(2).is_none());
}

#[test]
fn flagged_leaf_is_kept_for_references() {
    // ("a" kept as 0, ref 0).
    let t = loads(b")\x02\xda\x01ar\x00\x00\x00\x00").extract_tuple().unwrap();
    assert_eq!(*t[1].clone().extract_string().unwrap(), "a");
    // An integer, a float and a byte string are kept alike.
    let t = loads(b")\x02\xe9\x07\x00\x00\x00r\x00\x00\x00\x00")
        .extract_tuple()
        .unwrap();
    assert_eq!(long_of(t[1].clone()), BigInt::from(7));
    let t = loads(b")\x02\xe7\x00\x00\x00\x00\x00\x00\xf8\x3fr\x00\x00\x00\x00")
        .extract_tuple()
        .unwrap();
    assert_eq!(t[1].clone().extract_float().unwrap(), 0x3ff8_0000_0000_0000);
    let t = loads(b")\x02\xf3\x01\x00\x00\x00xr\x00\x00\x00\x00")
        .extract_tuple()
        .unwrap();
    assert_eq!(&t[1].clone().extract_bytes().unwrap()[..], b"x");
}

#[test]
fn flagged_singletons_are_not_kept() {
    // The flags on None, True, StopIteration and Ellipsis keep nothing, so
    // the first kept value is the string.
    let t = loads(b")\x06\xce\xd4\xd3\xae\xda\x01ar\x00\x00\x00\x00")
        .extract_tuple()
        .unwrap();
    assert_eq!(*t[5].clone().extract_string().unwrap(), "a");
    // And a reference right behind them finds nothing.
    assert!(matches!(
        marshal_loads(b")\x02\xcer\x00\x00\x00\x00", parse_float).unwrap_err(),
        Error::InvalidRef
    ));
}

#[test]
fn unflagged_values_are_not_kept() {
    assert!(matches!(
        marshal_loads(b")\x02z\x01ar\x00\x00\x00\x00", parse_float).unwrap_err(),
        Error::InvalidRef
    ));
}

#[test]
fn composite_takes_its_place_before_its_parts() {
    // A flagged tuple (place 0) of a flagged string (place 1) and
    // references to both places: place 0 is not filled yet.
    assert!(matches!(
        marshal_loads(b"\xa9\x02\xda\x01ar\x00\x00\x00\x00", parse_float).unwrap_err(),
        Error::InvalidRef
    ));
    let t = loads(b"\xa9\x02\xda\x01ar\x01\x00\x00\x00")
        .extract_tuple()
        .unwrap();
    assert_eq!(*t[1].clone().extract_string().unwrap(), "a");
}

#[test]
fn finished_composite_can_be_referred_to() {
    // ( flagged list [None] at place 0, ref 0 ).
    let t = loads(b")\x02\xdb\x01\x00\x00\x00Nr\x00\x00\x00\x00")
        .extract_tuple()
        .unwrap();
    let first = t[0].clone().extract_list().unwrap();
    let second = t[1].clone().extract_list().unwrap();
    assert_eq!(first.len(), 1);
    assert_eq!(second.len(), 1);
    // The reference shares the list, it does not copy it.
    assert!(Arc::ptr_eq(&first, &second));
}

#[test]
fn finished_set_can_be_referred_to() {
    // ( flagged set {1} at place 0, ref 0 ): the reference reads the set
    // with its element, not the empty set that stood there meanwhile.
    let t = loads(b")\x02\xbc\x01\x00\x00\x00i\x01\x00\x00\x00r\x00\x00\x00\x00")
        .extract_tuple()
        .unwrap();
    assert_eq!(t[0].clone().extract_set().unwrap().len(), 1);
    assert_eq!(t[1].clone().extract_set().unwrap().len(), 1);
}

#[test]
fn flagged_reference_keeps_the_value_again() {
    // "a" at place 0; a flagged reference to it takes place 1.
    let t = loads(b")\x03\xda\x01a\xf2\x00\x00\x00\x00r\x01\x00\x00\x00")
        .extract_tuple()
        .unwrap();
    assert_eq!(*t[2].clone().extract_string().unwrap(), "a");
}

#[test]
fn decoding_twice_gives_the_same() {
    let input: &[u8] = b"{\xa9\x02\xda\x01a\xda\x01b\xda\x01c0";
    let first = format!("{:?}", marshal_loads(input, parse_float));
    let second = format!("{:?}", marshal_loads(input, parse_float));
    assert_eq!(first, second);
    let bad: &[u8] = b"l\x02\x00\x00\x00\x00\x00\x00\x00";
    assert_eq!(
        format!("{:?}", marshal_loads(bad, parse_float)),
        format!("{:?}", marshal_loads(bad, parse_float))
    );
}

#[test]
fn the_three_entry_points_agree() {
    let input: &[u8] = b")\x02i\x05\x00\x00\x00z\x01a";
    let a = format!("{:?}", marshal_loads(input, parse_float));
    let b = format!("{:?}", marshal_load(input, parse_float));
    let c = format!(
        "{:?}",
        marshal_load_ex(input, MarshalLoadExOptions::default(), parse_float)
    );
    assert_eq!(a, b);
    assert_eq!(a, c);
    assert!(MarshalLoadExOptions::default().has_posonlyargcount);
}

#[test]
fn bytes_behind_the_value_are_not_read() {
    assert!(loads(b"N!!!!").is_none());
    assert_eq!(long_of(loads(b"i\x01\x00\x00\x00\xff")), BigInt::from(1));
}

#[test]
fn flag_does_not_change_a_leaf() {
    let pairs: [(&[u8], &[u8]); 6] = [
        (b"i\x07\x00\x00\x00", b"\xe9\x07\x00\x00\x00"),
        (b"z\x03abc", b"\xda\x03abc"),
        (b"N", b"\xce"),
        (b"T", b"\xd4"),
        (b"g\x00\x00\x00\x00\x00\x00\xf8\x3f", b"\xe7\x00\x00\x00\x00\x00\x00\xf8\x3f"),
        (b"l\x01\x00\x00\x00\x05\x00", b"\xec\x01\x00\x00\x00\x05\x00"),
    ];
    for (plain, flagged) in pairs {
        assert_eq!(
            format!("{:?}", marshal_loads(plain, parse_float)),
            format!("{:?}", marshal_loads(flagged, parse_float))
        );
    }
    // Failures are the same too.
    assert_eq!(
        format!("{:?}", marshal_loads(b"z\x05ab", parse_float)),
        format!("{:?}", marshal_loads(b"\xda\x05ab", parse_float))
    );
}

#[test]
fn flag_does_not_change_a_composite_without_references() {
    assert_eq!(
        format!("{:?}", marshal_loads(b")\x02NT", parse_float)),
        format!("{:?}", marshal_loads(b"\xa9\x02NT", parse_float))
    );
    assert_eq!(
        format!("{:?}", marshal_loads(b"[\x01\x00\x00\x00z\x01a", parse_float)),
        format!("{:?}", marshal_loads(b"\xdb\x01\x00\x00\x00z\x01a", parse_float))
    );
}

#[test]
fn nine_hundred_levels_are_read_and_no_more() {
    let mut ok = b")\x01".repeat(899);
    ok.push(b'N');
    assert!(marshal_loads(&ok, parse_float).is_ok());
    // 900 tuples and the value in them make 901 levels.
    let mut too_deep = b")\x01".repeat(900);
    too_deep.push(b'N');
    assert!(matches!(
        marshal_loads(&too_deep, parse_float).unwrap_err(),
        Error::RecursionLimitExceeded
    ));
    // Values side by side do not add up.
    let mut wide = vec![b'(', 0x10, 0x27, 0, 0];
    wide.extend_from_slice(&b"N".repeat(10_000));
    assert_eq!(loads(&wide).extract_tuple().unwrap().len(), 10_000);
}

#[test]
fn depth_handles_count_up_to_the_limit() {
    let mut depth = Depth::new();
    assert_eq!(depth.get(), 0);
    for level in 1..=900 {
        depth = depth.try_clone().unwrap();
        assert_eq!(depth.get(), level);
    }
    assert!(depth.try_clone().is_none());
    assert_eq!(py_marshal::depth::MAX_DEPTH, 900);
}

#[test]
fn clone_shares() {
    let v = loads(b"z\x03abc");
    let w = v.clone();
    assert!(Arc::ptr_eq(
        &v.extract_string().unwrap(),
        &w.extract_string().unwrap()
    ));
}
