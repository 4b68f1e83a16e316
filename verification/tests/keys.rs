use num_bigint::BigInt;
use py_marshal::read::marshal_loads;
use py_marshal::{ComplexBits, Obj, ObjHashable, ObjMap, ObjSet};
use std::sync::Arc;

fn parse_float(text: &str) -> Option<u64> {
    text.parse::<f64>().ok().map(f64::to_bits)
}

fn loads(bytes: &[u8]) -> Obj {
    marshal_loads(bytes, parse_float).unwrap()
}

fn long(n: i64) -> ObjHashable {
    ObjHashable::Long(Arc::new(BigInt::from(n)))
}

fn text(s: &str) -> ObjHashable {
    ObjHashable::String(Arc::new(s.to_owned()))
}

fn float(x: f64) -> ObjHashable {
    ObjHashable::Float(x.to_bits())
}

fn frozenset(items: Vec<ObjHashable>) -> ObjHashable {
    let mut set = ObjSet::new();
    for item in items {
        set.insert(item);
    }
    ObjHashable::FrozenSet(Arc::new(set))
}

fn tuple(items: Vec<ObjHashable>) -> ObjHashable {
    ObjHashable::Tuple(Arc::new(items))
}

fn samples() -> Vec<ObjHashable> {
    vec![
        ObjHashable::PyNone,
        ObjHashable::StopIteration,
        ObjHashable::Ellipsis,
        ObjHashable::Bool(false),
        ObjHashable::Bool(true),
        long(0),
        long(1),
        long(-1),
        long(i64::MAX),
        ObjHashable::Long(Arc::new(BigInt::from(1u128 << 100))),
        float(0.0),
        float(1.5),
        float(f64::NAN),
        float(f64::INFINITY),
        ObjHashable::Complex(ComplexBits {
            re: 1.0f64.to_bits(),
            im: 2.0f64.to_bits(),
        }),
        text(""),
        text("a"),
        text("Andr\u{e8}"),
        tuple(vec![]),
        tuple(vec![text("a"), long(1)]),
        frozenset(vec![]),
        frozenset(vec![long(1), long(2)]),
        frozenset(vec![frozenset(vec![long(1)]), tuple(vec![float(f64::NAN)])]),
    ]
}

#[test]
fn every_key_equals_itself_and_hashes_the_same() {
    for k in samples() {
        assert!(k.eq_key(&k), "{:?}", k);
        assert_eq!(k.hash(), k.hash(), "{:?}", k);
        let copy = k.clone();
        assert!(k.eq_key(&copy));
        assert_eq!(k.hash(), copy.hash());
    }
}

#[test]
fn different_samples_are_not_equal() {
    let all = samples();
    for (i, a) in all.iter().enumerate() {
        for (j, b) in all.iter().enumerate() {
            if i != j {
                assert!(!a.eq_key(b), "{:?} {:?}", a, b);
            }
        }
    }
}

#[test]
fn round_trip_through_a_value_keeps_the_key() {
    for k in samples() {
        let back = ObjHashable::try_from(&k.to_obj()).unwrap();
        assert!(k.eq_key(&back), "{:?}", k);
        assert!(back.eq_key(&k), "{:?}", k);
        assert_eq!(k.hash(), back.hash(), "{:?}", k);
    }
}

#[test]
fn nan_is_equal_to_every_nan() {
    let quiet = ObjHashable::Float(0x7ff8_0000_0000_0000);
    let negative = ObjHashable::Float(0xfff8_0000_0000_0000);
    let payload = ObjHashable::Float(0x7ff0_0000_0000_0001);
    assert!(quiet.eq_key(&quiet));
    assert!(quiet.eq_key(&negative));
    assert!(negative.eq_key(&payload));
    assert_eq!(quiet.hash(), 0x7ff8_0000_0000_0000);
    assert_eq!(negative.hash(), 0x7ff8_0000_0000_0000);
    assert_eq!(payload.hash(), 0x7ff8_0000_0000_0000);
    // Infinity is no NaN.
    assert!(!quiet.eq_key(&float(f64::INFINITY)));
    assert_eq!(float(f64::INFINITY).hash(), 0x7ff0_0000_0000_0000);
}

#[test]
fn both_zeros_are_equal() {
    assert!(float(0.0).eq_key(&float(-0.0)));
    assert!(float(-0.0).eq_key(&float(0.0)));
    assert_eq!(float(0.0).hash(), 0);
    assert_eq!(float(-0.0).hash(), 0);
    assert!(!float(0.0).eq_key(&float(f64::MIN_POSITIVE)));
}

#[test]
fn other_floats_hash_to_their_bits() {
    assert_eq!(float(1.5).hash(), 0x3ff8_0000_0000_0000);
    assert_eq!(float(-1.5).hash(), 0xbff8_0000_0000_0000);
    assert!(!float(1.5).eq_key(&float(-1.5)));
}

#[test]
fn hashes_of_the_simple_keys() {
    assert_eq!(ObjHashable::PyNone.hash(), 1);
    assert_eq!(ObjHashable::StopIteration.hash(), 2);
    assert_eq!(ObjHashable::Ellipsis.hash(), 3);
    assert_eq!(ObjHashable::Bool(false).hash(), 4);
    assert_eq!(ObjHashable::Bool(true).hash(), 5);
    assert_eq!(long(0).hash(), 0);
    assert_eq!(long(5).hash(), 10);
    assert_eq!(long(-5).hash(), 11);
    // Only the low 32 bits of the magnitude count.
    assert_eq!(long((1 << 32) + 3).hash(), 6);
    assert_eq!(long(-(1 << 32)).hash(), 1);
    assert_eq!(long(0xffff_ffff).hash(), 0x1_ffff_fffe);
}

#[test]
fn hashes_of_strings_and_tuples() {
    assert_eq!(text("").hash(), 7);
    // 7 * 31 + 97.
    assert_eq!(text("a").hash(), 314);
    // (7 * 31 + 97) * 31 + 98.
    assert_eq!(text("ab").hash(), 9832);
    // The bytes of the UTF-8 form count: e-grave is c3 a8.
    assert_eq!(text("\u{e8}").hash(), (7 * 31 + 0xc3) * 31 + 0xa8);
    assert_eq!(tuple(vec![]).hash(), 11);
    // 11 * 31 + 10.
    assert_eq!(tuple(vec![long(5)]).hash(), 351);
    // (11 * 31 + 10) * 31 + 314.
    assert_eq!(tuple(vec![long(5), text("a")]).hash(), 11195);
    // 1.0 and 2.0 as bit patterns, mixed with wrapping arithmetic.
    let c = ObjHashable::Complex(ComplexBits {
        re: 1.0f64.to_bits(),
        im: 2.0f64.to_bits(),
    });
    assert_eq!(
        c.hash(),
        1.0f64.to_bits().wrapping_mul(31).wrapping_add(2.0f64.to_bits())
    );
}

#[test]
fn frozen_sets_do_not_depend_on_order() {
    let a = frozenset(vec![long(1), long(2), text("x")]);
    let b = frozenset(vec![text("x"), long(2), long(1)]);
    assert!(a.eq_key(&b));
    assert!(b.eq_key(&a));
    assert_eq!(a.hash(), b.hash());
    // 2 xor 4 xor hash("x") = 2 ^ 4 ^ (7 * 31 + 120).
    assert_eq!(a.hash(), 2 ^ 4 ^ 337);
    assert_eq!(frozenset(vec![]).hash(), 0);
    let smaller = frozenset(vec![long(1), long(2)]);
    assert!(!a.eq_key(&smaller));
    assert!(!smaller.eq_key(&a));
}

#[test]
fn decoded_frozen_sets_do_not_depend_on_order() {
    let a = ObjHashable::try_from(&loads(
        b">\x02\x00\x00\x00i\x01\x00\x00\x00i\x02\x00\x00\x00",
    ))
    .unwrap();
    let b = ObjHashable::try_from(&loads(
        b">\x02\x00\x00\x00i\x02\x00\x00\x00i\x01\x00\x00\x00",
    ))
    .unwrap();
    assert!(a.eq_key(&b));
    assert_eq!(a.hash(), b.hash());
}

#[test]
fn tuples_depend_on_order() {
    let a = tuple(vec![long(1), long(2)]);
    let b = tuple(vec![long(2), long(1)]);
    assert!(!a.eq_key(&b));
    assert!(!a.eq_key(&tuple(vec![long(1)])));
    assert!(a.eq_key(&tuple(vec![long(1), long(2)])));
}

#[test]
fn long_keys_compare_by_value() {
    let big = ObjHashable::Long(Arc::new(BigInt::from(1u128 << 100)));
    let same = ObjHashable::Long(Arc::new(BigInt::from(1u128 << 100)));
    let other = ObjHashable::Long(Arc::new(BigInt::from((1u128 << 100) + 1)));
    assert!(big.eq_key(&same));
    assert!(!big.eq_key(&other));
    assert_eq!(big.hash(), same.hash());
    assert!(!long(1).eq_key(&long(-1)));
}

#[test]
fn keys_of_different_kinds_are_not_equal() {
    assert!(!long(1).eq_key(&ObjHashable::Bool(true)));
    assert!(!long(1).eq_key(&float(1.0)));
    assert!(!text("1").eq_key(&long(1)));
    assert!(!tuple(vec![]).eq_key(&frozenset(vec![])));
    assert!(!ObjHashable::PyNone.eq_key(&ObjHashable::Ellipsis));
}

#[test]
fn dict_finds_equal_float_keys() {
    // {nan: "x", nan': "y", 0.0: "p", -0.0: "q"} with two different NaNs.
    let mut input: Vec<u8> = Vec::new();
    input.push(b'{');
    input.push(b'g');
    input.extend_from_slice(&0x7ff8_0000_0000_0000u64.to_le_bytes());
    input.extend_from_slice(b"z\x01x");
    input.push(b'g');
    input.extend_from_slice(&0xfff8_0000_0000_0001u64.to_le_bytes());
    input.extend_from_slice(b"z\x01y");
    input.push(b'g');
    input.extend_from_slice(&0.0f64.to_le_bytes());
    input.extend_from_slice(b"z\x01p");
    input.push(b'g');
    input.extend_from_slice(&(-0.0f64).to_le_bytes());
    input.extend_from_slice(b"z\x01q");
    input.push(b'0');
    let d = loads(&input).extract_dict().unwrap();
    assert_eq!(d.len(), 2);
    assert_eq!(
        *d.get(&float(f64::NAN)).unwrap().clone().extract_string().unwrap(),
        "y"
    );
    assert_eq!(
        *d.get(&float(0.0)).unwrap().clone().extract_string().unwrap(),
        "q"
    );
    // The entry keeps the key that came first.
    match d.entry(0).unwrap().0 {
        ObjHashable::Float(bits) => assert_eq!(*bits, 0x7ff8_0000_0000_0000),
        other => panic!("{:?}", other),
    }
    match d.entry(1).unwrap().0 {
        ObjHashable::Float(bits) => assert_eq!(*bits, 0.0f64.to_bits()),
        other => panic!("{:?}", other),
    }
}

#[test]
fn set_insert_says_whether_the_key_was_new() {
    let mut s = ObjSet::new();
    assert!(s.is_empty());
    assert!(s.insert(long(1)));
    assert!(s.insert(text("a")));
    assert!(!s.insert(long(1)));
    assert!(s.insert(float(f64::NAN)));
    assert!(!s.insert(ObjHashable::Float(0xfff8_0000_0000_0000)));
    assert_eq!(s.len(), 3);
    assert!(s.contains(&text("a")));
    assert!(!s.contains(&text("b")));
}

#[test]
fn map_insert_returns_the_old_value() {
    let mut m = ObjMap::new();
    assert!(m.is_empty());
    assert!(m.insert(long(1), Obj::Bool(true)).is_none());
    assert!(m.insert(long(2), Obj::PyNone).is_none());
    match m.insert(long(1), Obj::Bool(false)) {
        Some(Obj::Bool(true)) => {}
        other => panic!("{:?}", other),
    }
    assert_eq!(m.len(), 2);
    assert_eq!(m.get(&long(1)).unwrap().clone().extract_bool().unwrap(), false);
    assert!(m.get(&long(2)).unwrap().is_none());
    assert!(m.get(&long(3)).is_none());
    assert!(!m.contains_key(&long(3)));
}

#[test]
fn only_some_values_can_be_keys() {
    assert!(ObjHashable::try_from(&loads(b"N")).is_ok());
    assert!(ObjHashable::try_from(&loads(b"i\x01\x00\x00\x00")).is_ok());
    assert!(ObjHashable::try_from(&loads(b"z\x01a")).is_ok());
    assert!(ObjHashable::try_from(&loads(b")\x01N")).is_ok());
    assert!(ObjHashable::try_from(&loads(b">\x00\x00\x00\x00")).is_ok());
    assert!(ObjHashable::try_from(&loads(b"s\x00\x00\x00\x00")).is_err());
    assert!(ObjHashable::try_from(&loads(b"[\x00\x00\x00\x00")).is_err());
    assert!(ObjHashable::try_from(&loads(b"{0")).is_err());
    assert!(ObjHashable::try_from(&loads(b"<\x00\x00\x00\x00")).is_err());
    match ObjHashable::try_from(&loads(b")\x02N)\x01{0")) {
        Err(Obj::Dict(_)) => {}
        other => panic!("{:?}", other),
    }
}

#[test]
fn frozen_set_of_frozen_sets() {
    // frozenset({frozenset({1}), frozenset({1})}) holds one element.
    let v = loads(b">\x02\x00\x00\x00>\x01\x00\x00\x00i\x01\x00\x00\x00>\x01\x00\x00\x00i\x01\x00\x00\x00");
    assert_eq!(v.extract_frozenset().unwrap().len(), 1);
}

#[test]
fn the_equality_operator_is_key_equality() {
    assert!(float(0.0) == float(-0.0));
    assert!(float(f64::NAN) == float(f64::NAN));
    assert!(long(1) != long(2));
    assert!(frozenset(vec![long(1), long(2)]) == frozenset(vec![long(2), long(1)]));
    assert!(tuple(vec![long(1), long(2)]) != tuple(vec![long(2), long(1)]));
}

#[test]
fn cloned_containers_hold_the_same() {
    let mut s = ObjSet::new();
    s.insert(long(1));
    s.insert(text("a"));
    let t = s.clone();
    assert_eq!(t.len(), 2);
    assert!(t.contains(&long(1)));
    assert!(t.contains(&text("a")));
    let mut m = ObjMap::new();
    m.insert(long(1), Obj::Bool(true));
    let n = m.clone();
    assert_eq!(n.len(), 1);
    assert_eq!(n.get(&long(1)).unwrap().clone().extract_bool().unwrap(), true);
}
