use num_bigint::BigInt;
use num_traits::Pow;
use py_marshal::read::errors::{Error, IoErrorKind};
use py_marshal::read::{marshal_load, marshal_load_ex, marshal_loads, MarshalLoadExOptions};
use py_marshal::{flags, Code, CodeFlags, Obj, ObjHashable};
use std::sync::Arc;

fn parse_float(text: &str) -> Option<u64> {
    text.parse::<f64>().ok().map(f64::to_bits)
}

fn load_unwrap(r: &[u8]) -> Obj {
    marshal_load(r, parse_float).unwrap()
}

fn loads_unwrap(s: &[u8]) -> Obj {
    load_unwrap(s)
}

#[test]
fn test_ints() {
    assert_eq!(BigInt::parse_bytes(b"85070591730234615847396907784232501249", 10).unwrap(), *loads_unwrap(b"l\t\x00\x00\x00\x01\x00\x00\x00\x00\x00\x00\x00\xf0\x7f\xff\x7f\xff\x7f\xff\x7f?\x00").extract_long().unwrap());
}

#[test]
fn test_int64() {
    for mut base in [i64::MAX, i64::MIN, -i64::MAX, -(i64::MIN >> 1)]
        .iter()
        .copied()
    {
        while base != 0 {
            let mut s = Vec::<u8>::new();
            s.push(b'I');
            s.extend_from_slice(&base.to_le_bytes());
            assert_eq!(
                BigInt::from(base),
                *loads_unwrap(&s).extract_long().unwrap()
            );

            if base == -1 {
                base = 0
            } else {
                base >>= 1
            }
        }
    }

    assert_eq!(
        BigInt::from(0x1032547698badcfe_i64),
        *loads_unwrap(b"I\xfe\xdc\xba\x98\x76\x54\x32\x10")
            .extract_long()
            .unwrap()
    );
    assert_eq!(
        BigInt::from(-0x1032547698badcff_i64),
        *loads_unwrap(b"I\x01\x23\x45\x67\x89\xab\xcd\xef")
            .extract_long()
            .unwrap()
    );
    assert_eq!(
        BigInt::from(0x7f6e5d4c3b2a1908_i64),
        *loads_unwrap(b"I\x08\x19\x2a\x3b\x4c\x5d\x6e\x7f")
            .extract_long()
            .unwrap()
    );
    assert_eq!(
        BigInt::from(-0x7f6e5d4c3b2a1909_i64),
        *loads_unwrap(b"I\xf7\xe6\xd5\xc4\xb3\xa2\x91\x80")
            .extract_long()
            .unwrap()
    );
}

#[test]
fn test_bool() {
    assert_eq!(true, loads_unwrap(b"T").extract_bool().unwrap());
    assert_eq!(false, loads_unwrap(b"F").extract_bool().unwrap());
}

#[test]
fn test_floats() {
    assert_eq!(
        (i64::MAX as f64) * 3.7e250,
        f64::from_bits(
            loads_unwrap(b"g\x11\x9f6\x98\xd2\xab\xe4w")
                .extract_float()
                .unwrap()
        )
    );
}

#[test]
fn test_unicode() {
    assert_eq!("", *loads_unwrap(b"\xda\x00").extract_string().unwrap());
    assert_eq!(
        "Andr\u{e8} Previn",
        *loads_unwrap(b"u\r\x00\x00\x00Andr\xc3\xa8 Previn")
            .extract_string()
            .unwrap()
    );
    assert_eq!(
        "abc",
        *loads_unwrap(b"\xda\x03abc").extract_string().unwrap()
    );
    assert_eq!(
        " ".repeat(10_000),
        *loads_unwrap(&[b"a\x10'\x00\x00" as &[u8], &[b' '; 10_000]].concat())
            .extract_string()
            .unwrap()
    );
}

#[test]
fn test_string() {
    assert_eq!("", *loads_unwrap(b"\xda\x00").extract_string().unwrap());
    assert_eq!(
        "Andr\u{e8} Previn",
        *loads_unwrap(b"\xf5\r\x00\x00\x00Andr\xc3\xa8 Previn")
            .extract_string()
            .unwrap()
    );
    assert_eq!(
        "abc",
        *loads_unwrap(b"\xda\x03abc").extract_string().unwrap()
    );
    assert_eq!(
        " ".repeat(10_000),
        *loads_unwrap(&[b"\xe1\x10'\x00\x00" as &[u8], &[b' '; 10_000]].concat())
            .extract_string()
            .unwrap()
    );
}

#[test]
fn test_bytes() {
    assert_eq!(
        b"",
        &loads_unwrap(b"\xf3\x00\x00\x00\x00")
            .extract_bytes()
            .unwrap()[..]
    );
    assert_eq!(
        b"Andr\xe8 Previn",
        &loads_unwrap(b"\xf3\x0c\x00\x00\x00Andr\xe8 Previn")
            .extract_bytes()
            .unwrap()[..]
    );
    assert_eq!(
        b"abc",
        &loads_unwrap(b"\xf3\x03\x00\x00\x00abc")
            .extract_bytes()
            .unwrap()[..]
    );
    assert_eq!(
        b" ".repeat(10_000),
        &loads_unwrap(&[b"\xf3\x10'\x00\x00" as &[u8], &[b' '; 10_000]].concat())
            .extract_bytes()
            .unwrap()[..]
    );
}

#[test]
fn test_exceptions() {
    loads_unwrap(b"S").extract_stop_iteration().unwrap();
}

fn assert_test_exceptions_code_valid(code: &Code) {
    assert_eq!(code.argcount, 1);
    assert!(code.cellvars.is_empty());
    assert_eq!(*code.code, b"t\x00\xa0\x01t\x00\xa0\x02t\x03\xa1\x01\xa1\x01}\x01|\x00\xa0\x04t\x03|\x01\xa1\x02\x01\x00d\x00S\x00");
    assert_eq!(code.consts.len(), 1);
    assert!(code.consts[0].is_none());
    assert_eq!(*code.filename, "<string>");
    assert_eq!(code.firstlineno, 3);
    assert_eq!(
        code.flags,
        CodeFlags::from_bits(flags::NOFREE | flags::NEWLOCALS | flags::OPTIMIZED).unwrap()
    );
    assert!(code.freevars.is_empty());
    assert_eq!(code.kwonlyargcount, 0);
    assert_eq!(*code.lnotab, b"\x00\x01\x10\x01");
    assert_eq!(*code.name, "test_exceptions");
    assert!(code
        .names
        .iter()
        .map(|s| s.as_str())
        .eq(vec![
            "marshal",
            "loads",
            "dumps",
            "StopIteration",
            "assertEqual"
        ]
        .into_iter()));
    assert_eq!(code.nlocals, 2);
    assert_eq!(code.stacksize, 5);
    assert!(code
        .varnames
        .iter()
        .map(|s| s.as_str())
        .eq(vec!["self", "new"].into_iter()));
}

#[test]
fn test_code() {
    let input: &[u8] = b"\xe3\x01\x00\x00\x00\x00\x00\x00\x00\x02\x00\x00\x00\x05\x00\x00\x00C\x00\x00\x00s \x00\x00\x00t\x00\xa0\x01t\x00\xa0\x02t\x03\xa1\x01\xa1\x01}\x01|\x00\xa0\x04t\x03|\x01\xa1\x02\x01\x00d\x00S\x00)\x01N)\x05\xda\x07marshal\xda\x05loads\xda\x05dumps\xda\rStopIteration\xda\x0bassertEqual)\x02\xda\x04self\xda\x03new\xa9\x00r\x08\x00\x00\x00\xda\x08<string>\xda\x0ftest_exceptions\x03\x00\x00\x00s\x04\x00\x00\x00\x00\x01\x10\x01";
    println!("{}", input.len());
    let code_result = marshal_load_ex(
        input,
        MarshalLoadExOptions {
            has_posonlyargcount: false,
        },
        parse_float,
    );
    let code = code_result.unwrap().extract_code().unwrap();
    assert_test_exceptions_code_valid(&code);
}

#[test]
fn test_many_codeobjects() {
    let input: &[u8] = &[b"(\x88\x13\x00\x00\xe3\x01\x00\x00\x00\x00\x00\x00\x00\x02\x00\x00\x00\x05\x00\x00\x00C\x00\x00\x00s \x00\x00\x00t\x00\xa0\x01t\x00\xa0\x02t\x03\xa1\x01\xa1\x01}\x01|\x00\xa0\x04t\x03|\x01\xa1\x02\x01\x00d\x00S\x00)\x01N)\x05\xda\x07marshal\xda\x05loads\xda\x05dumps\xda\rStopIteration\xda\x0bassertEqual)\x02\xda\x04self\xda\x03new\xa9\x00r\x08\x00\x00\x00\xda\x08<string>\xda\x0ftest_exceptions\x03\x00\x00\x00s\x04\x00\x00\x00\x00\x01\x10\x01" as &[u8], &b"r\x00\x00\x00\x00".repeat(4999)].concat();
    let result = marshal_load_ex(
        input,
        MarshalLoadExOptions {
            has_posonlyargcount: false,
        },
        parse_float,
    );
    let tuple = result.unwrap().extract_tuple().unwrap();
    assert_eq!(tuple.len(), 5000);
    for o in &*tuple {
        assert_test_exceptions_code_valid(&o.clone().extract_code().unwrap());
    }
}

#[test]
fn test_different_filenames() {
    let input: &[u8] = b")\x02c\x00\x00\x00\x00\x00\x00\x00\x00\x00\x00\x00\x00\x01\x00\x00\x00@\x00\x00\x00s\x08\x00\x00\x00e\x00\x01\x00d\x00S\x00)\x01N)\x01\xda\x01x\xa9\x00r\x01\x00\x00\x00r\x01\x00\x00\x00\xda\x02f1\xda\x08<module>\x01\x00\x00\x00\xf3\x00\x00\x00\x00c\x00\x00\x00\x00\x00\x00\x00\x00\x00\x00\x00\x00\x01\x00\x00\x00@\x00\x00\x00s\x08\x00\x00\x00e\x00\x01\x00d\x00S\x00)\x01N)\x01\xda\x01yr\x01\x00\x00\x00r\x01\x00\x00\x00r\x01\x00\x00\x00\xda\x02f2r\x03\x00\x00\x00\x01\x00\x00\x00r\x04\x00\x00\x00";
    println!("{}", input.len());
    let result = marshal_load_ex(
        input,
        MarshalLoadExOptions {
            has_posonlyargcount: false,
        },
        parse_float,
    );
    let tuple = result.unwrap().extract_tuple().unwrap();
    assert_eq!(tuple.len(), 2);
    assert_eq!(*tuple[0].clone().extract_code().unwrap().filename, "f1");
    assert_eq!(*tuple[1].clone().extract_code().unwrap().filename, "f2");
}

fn key(text: &str) -> ObjHashable {
    ObjHashable::String(Arc::new(text.to_owned()))
}

#[test]
fn test_dict() {
    let input: &[u8] = b"{\xda\x07astring\xfa\x10foo@bar.baz.spam\xda\x06afloat\xe7H\xe1z\x14ns\xbc@\xda\x05anint\xe9\x00\x00\x10\x00\xda\nashortlong\xe9\x02\x00\x00\x00\xda\x05alist[\x01\x00\x00\x00\xfa\x07.zyx.41\xda\x06atuple\xa9\n\xfa\x07.zyx.41r\x0c\x00\x00\x00r\x0c\x00\x00\x00r\x0c\x00\x00\x00r\x0c\x00\x00\x00r\x0c\x00\x00\x00r\x0c\x00\x00\x00r\x0c\x00\x00\x00r\x0c\x00\x00\x00r\x0c\x00\x00\x00\xda\x08abooleanF\xda\x08aunicode\xf5\r\x00\x00\x00Andr\xc3\xa8 Previn0";
    println!("{}", input.len());
    let result = marshal_load(input, parse_float);
    let dict = result.unwrap().extract_dict().unwrap();
    assert_eq!(dict.len(), 8);
    assert_eq!(
        *dict
            .get(&key("astring"))
            .unwrap()
            .clone()
            .extract_string()
            .unwrap(),
        "foo@bar.baz.spam"
    );
    assert_eq!(
        f64::from_bits(
            dict.get(&key("afloat"))
                .unwrap()
                .clone()
                .extract_float()
                .unwrap()
        ),
        7283.43_f64
    );
    assert_eq!(
        *dict
            .get(&key("anint"))
            .unwrap()
            .clone()
            .extract_long()
            .unwrap(),
        BigInt::from(2).pow(20_u8)
    );
    assert_eq!(
        *dict
            .get(&key("ashortlong"))
            .unwrap()
            .clone()
            .extract_long()
            .unwrap(),
        BigInt::from(2)
    );

    let list = dict
        .get(&key("alist"))
        .unwrap()
        .clone()
        .extract_list()
        .unwrap();
    assert_eq!(list.len(), 1);
    assert_eq!(*list[0].clone().extract_string().unwrap(), ".zyx.41");

    let tuple = dict
        .get(&key("atuple"))
        .unwrap()
        .clone()
        .extract_tuple()
        .unwrap();
    assert_eq!(tuple.len(), 10);
    for o in &*tuple {
        assert_eq!(*o.clone().extract_string().unwrap(), ".zyx.41");
    }
    assert_eq!(
        dict.get(&key("aboolean"))
            .unwrap()
            .clone()
            .extract_bool()
            .unwrap(),
        false
    );
    assert_eq!(
        *dict
            .get(&key("aunicode"))
            .unwrap()
            .clone()
            .extract_string()
            .unwrap(),
        "Andr\u{e8} Previn"
    );
}

#[test]
fn test_dict_tuple_key() {
    let dict = loads_unwrap(b"{\xa9\x02\xda\x01a\xda\x01b\xda\x01c0")
        .extract_dict()
        .unwrap();
    assert_eq!(dict.len(), 1);
    assert_eq!(
        *dict
            .get(&ObjHashable::Tuple(Arc::new(vec![key("a"), key("b")])))
            .unwrap()
            .clone()
            .extract_string()
            .unwrap(),
        "c"
    );
}

#[test]
fn test_sets() {
    let set = loads_unwrap(b"<\x08\x00\x00\x00\xda\x05alist\xda\x08aboolean\xda\x07astring\xda\x08aunicode\xda\x06afloat\xda\x05anint\xda\x06atuple\xda\nashortlong").extract_set().unwrap();
    assert_eq!(set.len(), 8);
    let frozenset = loads_unwrap(b">\x08\x00\x00\x00\xda\x06atuple\xda\x08aunicode\xda\x05anint\xda\x08aboolean\xda\x06afloat\xda\x05alist\xda\nashortlong\xda\x07astring").extract_frozenset().unwrap();
    assert_eq!(frozenset.len(), 8);
}

#[test]
fn test_patch_873224() {
    assert!(matches!(
        marshal_loads(b"0", parse_float).unwrap_err(),
        Error::UnexpectedNull
    ));
    let f_err = marshal_loads(b"f", parse_float).unwrap_err();
    match f_err {
        Error::Io(io_err) => {
            assert_eq!(io_err, IoErrorKind::UnexpectedEof);
        }
        _ => panic!(),
    }
    let int_err =
        marshal_loads(b"l\x05\x00\x00\x00\x00\x00\x00\x00\x00\x00\x00\x00 ", parse_float).unwrap_err();
    match int_err {
        Error::Io(io_err) => {
            assert_eq!(io_err, IoErrorKind::UnexpectedEof);
        }
        _ => panic!(),
    }
}

#[test]
fn test_fuzz() {
    for i in 0..=u8::MAX {
        println!("{:?}", marshal_loads(&[i], parse_float));
    }
}

#[test]
fn test_loads_recursion() {
    loads_unwrap(&[&b")\x01".repeat(100)[..], b"N"].concat());
    loads_unwrap(&[&b"(\x01\x00\x00\x00".repeat(100)[..], b"N"].concat());
    loads_unwrap(&[&b"[\x01\x00\x00\x00".repeat(100)[..], b"N"].concat());
    loads_unwrap(&[&b"{N".repeat(100)[..], b"N", &b"0".repeat(100)[..]].concat());
    loads_unwrap(&[&b">\x01\x00\x00\x00".repeat(100)[..], b"N"].concat());

    assert!(matches!(
        marshal_loads(&[&b")\x01".repeat(1048576)[..], b"N"].concat(), parse_float).unwrap_err(),
        Error::RecursionLimitExceeded
    ));
    assert!(matches!(
        marshal_loads(
            &[&b"(\x01\x00\x00\x00".repeat(1048576)[..], b"N"].concat(),
            parse_float
        )
        .unwrap_err(),
        Error::RecursionLimitExceeded
    ));
    assert!(matches!(
        marshal_loads(
            &[&b"[\x01\x00\x00\x00".repeat(1048576)[..], b"N"].concat(),
            parse_float
        )
        .unwrap_err(),
        Error::RecursionLimitExceeded
    ));
    assert!(matches!(
        marshal_loads(
            &[&b"{N".repeat(1048576)[..], b"N", &b"0".repeat(1048576)[..]].concat(),
            parse_float
        )
        .unwrap_err(),
        Error::RecursionLimitExceeded
    ));
    assert!(matches!(
        marshal_loads(
            &[&b">\x01\x00\x00\x00".repeat(1048576)[..], b"N"].concat(),
            parse_float
        )
        .unwrap_err(),
        Error::RecursionLimitExceeded
    ));
}

#[test]
fn test_invalid_longs() {
    assert!(matches!(
        marshal_loads(b"l\x02\x00\x00\x00\x00\x00\x00\x00", parse_float).unwrap_err(),
        Error::UnnormalizedLong
    ));
}

#[test]
fn test_issue_2_ref_demarshalling_ordering_previously_broken() {
    let list = marshal_loads(b"\xdb\x02\x00\x00\x00\xda\x01ar\x01\x00\x00\x00", parse_float)
        .unwrap()
        .extract_list()
        .unwrap();
    assert_eq!(list.len(), 2);
    assert_eq!(*list[0].clone().extract_string().unwrap(), "a");
    assert_eq!(*list[1].clone().extract_string().unwrap(), "a");
}

#[test]
fn test_issue_2_ref_demarshalling_ordering_previously_working() {
    let list = marshal_loads(b"[\x02\x00\x00\x00\xda\x01ar\x00\x00\x00\x00", parse_float)
        .unwrap()
        .extract_list()
        .unwrap();
    assert_eq!(list.len(), 2);
    assert_eq!(*list[0].clone().extract_string().unwrap(), "a");
    assert_eq!(*list[1].clone().extract_string().unwrap(), "a");
}
