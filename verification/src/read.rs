//! Reading a value from marshalled bytes.
use vstd::prelude::*;
use vstd::slice::slice_subrange;
use vstd::slice::slice_to_vec;
use num_bigint::BigInt;
use std::sync::Arc;
use crate::bigint::{
    bigint_from_biguint, bigint_from_i32, bigint_from_i64, bigint_value, bigint_zero,
};
use crate::depth::{Depth, MAX_DEPTH};
use crate::flags::CodeFlags;
use crate::object::{group_views, objs_view, strings_view, Code, Obj, ObjHashable, ObjMap, ObjSet};
use crate::read::errors::{Error, ErrorValue, IoErrorKind};
use crate::read::model::{
    all_strings, decode, publish, read_bytes_field, read_code, read_code_head, read_code_names,
    read_digits, read_items, read_keys, read_pairs, read_payload, read_pylong, read_string_field,
    read_strings_field, read_tuple_field, read_value, reserve, signed32, signed64, is_singleton,
    take_bytes, take_float_text, take_string, take_u16, take_u32, take_u64, take_u8, CodeHead,
    CodeNames, Config, State, Step,
};
use crate::read::types::{Type, FLAG_REF};
use crate::std_specs::{arc_clone, string_from_utf8};
use crate::utils::{biguint_from_pylong_digits, sign_of};
use crate::value::{ComplexBits, Value};

pub mod errors;
pub mod laws;
pub mod locality;
pub mod model;
pub mod prefix;
pub mod types;
pub mod wellformed;

verus! {

/// What a caller may choose about the stream that is read.
#[derive(Copy, Clone, Debug)]
pub struct MarshalLoadExOptions {
    /// Whether a code record holds the `posonlyargcount` field.
    pub has_posonlyargcount: bool,
}

impl Default for MarshalLoadExOptions {
    /// The options for the latest version of the format.
    fn default() -> (r: Self)
        ensures
            r.has_posonlyargcount,
    {
        MarshalLoadExOptions { has_posonlyargcount: true }
    }
}

/// Whether `parse` may read `text` as `r`.
pub open spec fn parses_to<F: Fn(&str) -> Option<u64>>(parse: F, text: Seq<char>, r: Option<u64>) -> bool {
    exists|s: &str| s@ == text && #[trigger] parse.ensures((s,), r)
}

/// Whether `parse` can be called on every text and what it returns depends
/// on the text alone.
pub open spec fn parser_ok<F: Fn(&str) -> Option<u64>>(parse: F) -> bool {
    &&& forall|s: &str| #[trigger] parse.requires((s,))
    &&& forall|s1: &str, s2: &str, r1: Option<u64>, r2: Option<u64>|
        s1@ == s2@ && #[trigger] parse.ensures((s1,), r1) && #[trigger] parse.ensures((s2,), r2) ==> r1
            == r2
}

/// The function from texts to bit patterns that `parse` computes.
pub open spec fn float_model<F: Fn(&str) -> Option<u64>>(parse: F) -> spec_fn(Seq<char>) -> Option<u64> {
    |text: Seq<char>| choose|r: Option<u64>| #[trigger] parses_to(parse, text, r)
}

/// What a read with these options and this reader of decimal texts
/// depends on.
pub open spec fn config<F: Fn(&str) -> Option<u64>>(has_posonlyargcount: bool, parse: F) -> Config {
    Config { has_posonlyargcount, floats: float_model(parse) }
}

/// Whether an outcome is the one expected: the same failure, or the same
/// result in the same state.
pub open spec fn outcome<T, V>(
    r: Result<T, Error>,
    after: State,
    expected: Step<V>,
    view: spec_fn(T) -> V,
) -> bool {
    match expected {
        Ok((v, st)) => r matches Ok(x) && view(x) == v && after == st,
        Err(e) => r matches Err(x) && x@ == e,
    }
}

/// The bytes that are read, the cursor into them, and the values kept for
/// references.
struct RFile<'a> {
    bytes: &'a [u8],
    pos: usize,
    refs: Vec<Obj>,
    has_posonlyargcount: bool,
}

impl<'a> RFile<'a> {
    /// The cursor is within the bytes.
    spec fn wf(&self) -> bool {
        self.pos <= self.bytes@.len()
    }

    /// Where the read stands.
    spec fn state(&self) -> State {
        State { pos: self.pos as int, refs: objs_view(self.refs@) }
    }

    /// Whether this is `before` after some reading: the same bytes and
    /// options, the cursor not moved back, no kept value dropped.
    spec fn follows(&self, before: &RFile<'a>) -> bool {
        &&& self.wf()
        &&& self.bytes == before.bytes
        &&& self.has_posonlyargcount == before.has_posonlyargcount
        &&& self.pos >= before.pos
        &&& self.refs@.len() >= before.refs@.len()
    }
}

/// A 32-bit pattern as a two's-complement number.
fn as_signed32(x: u32) -> (r: i32)
    ensures
        r == signed32(x as int),
{
    if x < 0x8000_0000 {
        x as i32
    } else {
        ((x - 0x8000_0000) as i32) + i32::MIN
    }
}

/// A 64-bit pattern as a two's-complement number.
fn as_signed64(x: u64) -> (r: i64)
    ensures
        r == signed64(x as int),
{
    if x < 0x8000_0000_0000_0000 {
        x as i64
    } else {
        ((x - 0x8000_0000_0000_0000) as i64) + i64::MIN
    }
}

/// Reads one byte.
fn r_byte(p: &mut RFile) -> (r: Result<u8, Error>)
    requires
        old(p).wf(),
    ensures
        final(p).follows(old(p)),
        outcome(r, final(p).state(), take_u8(old(p).bytes@, old(p).state()), |x: u8| x),
{
    if p.bytes.len() - p.pos < 1 {
        return Err(Error::Io(IoErrorKind::UnexpectedEof));
    }
    let b: u8 = p.bytes[p.pos];
    p.pos = p.pos + 1;
    Ok(b)
}

/// Reads a little-endian 16-bit number.
fn r_short(p: &mut RFile) -> (r: Result<u16, Error>)
    requires
        old(p).wf(),
    ensures
        final(p).follows(old(p)),
        outcome(r, final(p).state(), take_u16(old(p).bytes@, old(p).state()), |x: u16| x),
{
    if p.bytes.len() - p.pos < 2 {
        return Err(Error::Io(IoErrorKind::UnexpectedEof));
    }
    let b0: u16 = p.bytes[p.pos] as u16;
    let b1: u16 = p.bytes[p.pos + 1] as u16;
    p.pos = p.pos + 2;
    Ok(b0 + 0x100 * b1)
}

/// Reads a little-endian 32-bit number.
fn r_long(p: &mut RFile) -> (r: Result<u32, Error>)
    requires
        old(p).wf(),
    ensures
        final(p).follows(old(p)),
        outcome(r, final(p).state(), take_u32(old(p).bytes@, old(p).state()), |x: u32| x),
{
    if p.bytes.len() - p.pos < 4 {
        return Err(Error::Io(IoErrorKind::UnexpectedEof));
    }
    let b0: u32 = p.bytes[p.pos] as u32;
    let b1: u32 = p.bytes[p.pos + 1] as u32;
    let b2: u32 = p.bytes[p.pos + 2] as u32;
    let b3: u32 = p.bytes[p.pos + 3] as u32;
    p.pos = p.pos + 4;
    Ok(b0 + 0x100 * b1 + 0x1_0000 * b2 + 0x100_0000 * b3)
}

/// Reads a little-endian 64-bit number.
fn r_long64(p: &mut RFile) -> (r: Result<u64, Error>)
    requires
        old(p).wf(),
    ensures
        final(p).follows(old(p)),
        outcome(r, final(p).state(), take_u64(old(p).bytes@, old(p).state()), |x: u64| x),
{
    if p.bytes.len() - p.pos < 8 {
        return Err(Error::Io(IoErrorKind::UnexpectedEof));
    }
    let b0: u64 = p.bytes[p.pos] as u64;
    let b1: u64 = p.bytes[p.pos + 1] as u64;
    let b2: u64 = p.bytes[p.pos + 2] as u64;
    let b3: u64 = p.bytes[p.pos + 3] as u64;
    let b4: u64 = p.bytes[p.pos + 4] as u64;
    let b5: u64 = p.bytes[p.pos + 5] as u64;
    let b6: u64 = p.bytes[p.pos + 6] as u64;
    let b7: u64 = p.bytes[p.pos + 7] as u64;
    p.pos = p.pos + 8;
    let low: u64 = b0 + 0x100 * b1 + 0x1_0000 * b2 + 0x100_0000 * b3;
    let high: u64 = b4 + 0x100 * b5 + 0x1_0000 * b6 + 0x100_0000 * b7;
    Ok(low + 0x1_0000_0000 * high)
}

/// Reads the bit pattern of a binary floating-point number.
fn r_float_bin(p: &mut RFile) -> (r: Result<u64, Error>)
    requires
        old(p).wf(),
    ensures
        final(p).follows(old(p)),
        outcome(r, final(p).state(), take_u64(old(p).bytes@, old(p).state()), |x: u64| x),
{
    r_long64(p)
}

/// Reads `n` bytes.
fn r_bytes(n: usize, p: &mut RFile) -> (r: Result<Vec<u8>, Error>)
    requires
        old(p).wf(),
    ensures
        final(p).follows(old(p)),
        outcome(r, final(p).state(), take_bytes(old(p).bytes@, old(p).state(), n as nat), |x: Vec<u8>| x@),
{
    if p.bytes.len() - p.pos < n {
        return Err(Error::Io(IoErrorKind::UnexpectedEof));
    }
    let buf = slice_to_vec(slice_subrange(p.bytes, p.pos, p.pos + n));
    p.pos = p.pos + n;
    Ok(buf)
}

/// Reads `n` bytes of UTF-8 as a text.
fn r_string(n: usize, p: &mut RFile) -> (r: Result<String, Error>)
    requires
        old(p).wf(),
    ensures
        final(p).follows(old(p)),
        outcome(r, final(p).state(), take_string(old(p).bytes@, old(p).state(), n as nat), |x: String| x@),
{
    let buf = r_bytes(n, p)?;
    match string_from_utf8(buf) {
        Ok(s) => Ok(s),
        Err(_) => Err(Error::Utf8),
    }
}

/// Reads a floating-point number written as a decimal text behind a
/// one-byte length, and has `parse` say which number it is.
fn r_float_str<F: Fn(&str) -> Option<u64>>(p: &mut RFile, parse: &F) -> (r: Result<u64, Error>)
    requires
        old(p).wf(),
        parser_ok(*parse),
    ensures
        final(p).follows(old(p)),
        outcome(
            r,
            final(p).state(),
            take_float_text(
                old(p).bytes@,
                config(old(p).has_posonlyargcount, *parse),
                old(p).state(),
            ),
            |x: u64| x,
        ),
{
    let n = r_byte(p)?;
    let s = r_string(n as usize, p)?;
    let parsed = parse(s.as_str());
    proof {
        assert(parses_to(*parse, s@, parsed));
        let chosen = float_model(*parse)(s@);
        assert(parses_to(*parse, s@, chosen));
    }
    match parsed {
        Some(bits) => Ok(bits),
        None => Err(Error::ParseFloat),
    }
}

/// Reads an integer of any size.
fn r_pylong(p: &mut RFile) -> (r: Result<BigInt, Error>)
    requires
        old(p).wf(),
    ensures
        final(p).follows(old(p)),
        outcome(
            r,
            final(p).state(),
            read_pylong(old(p).bytes@, old(p).state()),
            |x: BigInt| bigint_value(x),
        ),
{
    let raw = r_long(p)?;
    let n: i32 = as_signed32(raw);
    if n == 0 {
        return Ok(bigint_zero());
    }
    let size: u32 = if n < 0 {
        (-(n as i64)) as u32
    } else {
        n as u32
    };
    let mut digits: Vec<u16> = Vec::new();
    let mut i: u32 = 0;
    let ghost bytes = p.bytes@;
    let ghost start = p.state();
    while i < size
        invariant
            i <= size,
            digits@.len() == i,
            forall|k: int| 0 <= k < digits@.len() ==> digits@[k] < 0x8000,
            p.follows(old(p)),
            bytes == p.bytes@,
            take_u32(bytes, old(p).state()) == Ok::<(u32, State), ErrorValue>((raw, start)),
            n == signed32(raw as int),
            n != 0,
            size == (if n < 0 { -n } else { n as int }),
            read_digits(bytes, start, size as nat, Seq::empty()) == read_digits(
                bytes,
                p.state(),
                (size - i) as nat,
                digits@,
            ),
        decreases size - i,
    {
        let d = r_short(p)?;
        if d >= 0x8000 {
            return Err(Error::DigitOutOfRange { digit: d });
        }
        digits.push(d);
        i = i + 1;
    }
    if digits[(size - 1) as usize] == 0 {
        return Err(Error::UnnormalizedLong);
    }
    Ok(bigint_from_biguint(sign_of(&n), biguint_from_pylong_digits(digits.as_slice())))
}

/// The view of what a record reads as.
pub open spec fn opt_view(o: Option<Obj>) -> Option<Value> {
    match o {
        Some(x) => Some(x@),
        None => None,
    }
}

/// Whether a value never takes a place among the references.
fn is_singleton_obj(o: &Obj) -> (r: bool)
    ensures
        r == is_singleton(o@),
{
    broadcast use group_views;

    match o {
        Obj::PyNone | Obj::StopIteration | Obj::Ellipsis | Obj::Bool(_) => true,
        _ => false,
    }
}

/// Reads one record. `None` is what the null tag reads as.
fn r_object<F: Fn(&str) -> Option<u64>>(p: &mut RFile, depth: &Depth, parse: &F) -> (r: Result<
    Option<Obj>,
    Error,
>)
    requires
        old(p).wf(),
        parser_ok(*parse),
    ensures
        final(p).follows(old(p)),
        r is Ok ==> final(p).pos > old(p).pos,
        outcome(
            r,
            final(p).state(),
            model::read_object(
                old(p).bytes@,
                config(old(p).has_posonlyargcount, *parse),
                old(p).state(),
                depth.level(),
            ),
            |o: Option<Obj>| opt_view(o),
        ),
    decreases MAX_DEPTH - depth.level(), 0nat, 0nat,
{
    broadcast use group_views;

    let code: u8 = r_byte(p)?;
    let handle = match depth.try_clone() {
        Some(h) => h,
        None => {
            return Err(Error::RecursionLimitExceeded);
        },
    };
    let flag: bool = (code & FLAG_REF) != 0;
    let type_u8: u8 = code & !FLAG_REF;
    let ty = match Type::from_u8(type_u8) {
        Some(t) => t,
        None => {
            return Err(Error::InvalidType { spec: type_u8 });
        },
    };
    let idx: usize = p.refs.len();
    let ghost before = p.refs@;
    if flag && ty.reserves() {
        let placeholder = match ty {
            Type::PySet => Obj::PySet(Arc::new(ObjSet::new())),
            _ => Obj::PyNone,
        };
        p.refs.push(placeholder);
    }
    assert(objs_view(p.refs@) =~= reserve(objs_view(before), ty, flag));
    let retval = r_payload(p, ty, &handle, parse)?;
    let ghost filled = p.refs@;
    match &retval {
        Some(x) => {
            if flag && !is_singleton_obj(x) {
                if ty.reserves() {
                    p.refs.set(idx, x.clone());
                } else {
                    p.refs.push(x.clone());
                }
            }
        },
        None => {},
    }
    assert(objs_view(p.refs@) =~= publish(objs_view(filled), opt_view(retval), ty, flag, idx as int));
    Ok(retval)
}

/// Reads what follows the tag of a record of type `ty`.
fn r_payload<F: Fn(&str) -> Option<u64>>(p: &mut RFile, ty: Type, depth: &Depth, parse: &F) -> (r:
    Result<Option<Obj>, Error>)
    requires
        old(p).wf(),
        parser_ok(*parse),
    ensures
        final(p).follows(old(p)),
        outcome(
            r,
            final(p).state(),
            read_payload(
                old(p).bytes@,
                config(old(p).has_posonlyargcount, *parse),
                ty,
                old(p).state(),
                depth.level(),
            ),
            |o: Option<Obj>| opt_view(o),
        ),
    decreases MAX_DEPTH - depth.level(), 6nat, 0nat,
{
    broadcast use group_views;

    match ty {
        Type::Null => Ok(None),
        Type::PyNone => Ok(Some(Obj::PyNone)),
        Type::StopIter => Ok(Some(Obj::StopIteration)),
        Type::Ellipsis => Ok(Some(Obj::Ellipsis)),
        Type::False => Ok(Some(Obj::Bool(false))),
        Type::True => Ok(Some(Obj::Bool(true))),
        Type::Int => {
            let x = r_long(p)?;
            Ok(Some(Obj::Long(Arc::new(bigint_from_i32(as_signed32(x))))))
        },
        Type::Int64 => {
            let x = r_long64(p)?;
            Ok(Some(Obj::Long(Arc::new(bigint_from_i64(as_signed64(x))))))
        },
        Type::Long => {
            let x = r_pylong(p)?;
            Ok(Some(Obj::Long(Arc::new(x))))
        },
        Type::Float => {
            let x = r_float_str(p, parse)?;
            Ok(Some(Obj::Float(x)))
        },
        Type::BinaryFloat => {
            let x = r_float_bin(p)?;
            Ok(Some(Obj::Float(x)))
        },
        Type::Complex => {
            let re = r_float_str(p, parse)?;
            let im = r_float_str(p, parse)?;
            Ok(Some(Obj::Complex(ComplexBits { re, im })))
        },
        Type::BinaryComplex => {
            let re = r_float_bin(p)?;
            let im = r_float_bin(p)?;
            Ok(Some(Obj::Complex(ComplexBits { re, im })))
        },
        Type::String => {
            let n = r_long(p)?;
            let raw = r_bytes(n as usize, p)?;
            Ok(Some(Obj::Bytes(Arc::new(raw))))
        },
        Type::AsciiInterned | Type::Ascii | Type::Interned | Type::Unicode => {
            let n = r_long(p)?;
            let text = r_string(n as usize, p)?;
            Ok(Some(Obj::String(Arc::new(text))))
        },
        Type::ShortAsciiInterned | Type::ShortAscii => {
            let n = r_byte(p)?;
            let text = r_string(n as usize, p)?;
            Ok(Some(Obj::String(Arc::new(text))))
        },
        Type::SmallTuple => {
            let n = r_byte(p)?;
            let items = r_vec(n as usize, p, depth, parse)?;
            Ok(Some(Obj::Tuple(Arc::new(items))))
        },
        Type::Tuple => {
            let n = r_long(p)?;
            let items = r_vec(n as usize, p, depth, parse)?;
            Ok(Some(Obj::Tuple(Arc::new(items))))
        },
        Type::List => {
            let n = r_long(p)?;
            let items = r_vec(n as usize, p, depth, parse)?;
            Ok(Some(Obj::List(Arc::new(items))))
        },
        Type::PySet => {
            let n = r_long(p)?;
            let mut set = ObjSet::new();
            r_hashset_into(&mut set, n as usize, p, depth, parse)?;
            Ok(Some(Obj::PySet(Arc::new(set))))
        },
        Type::FrozenSet => {
            let n = r_long(p)?;
            let set = r_hashset(n as usize, p, depth, parse)?;
            Ok(Some(Obj::FrozenSet(Arc::new(set))))
        },
        Type::Dict => {
            let map = r_hashmap(p, depth, parse)?;
            Ok(Some(Obj::Dict(Arc::new(map))))
        },
        Type::Code => {
            let code = r_code(p, depth, parse)?;
            Ok(Some(Obj::Code(Arc::new(code))))
        },
        Type::Ref => {
            let n = r_long(p)? as usize;
            if n >= p.refs.len() {
                return Err(Error::InvalidRef);
            }
            let result = p.refs[n].clone();
            if result.is_none() {
                Err(Error::InvalidRef)
            } else {
                Ok(Some(result))
            }
        },
        Type::Unknown => Err(Error::InvalidType { spec: 0x3f }),
    }
}

/// Reads one record that must be a value.
fn r_object_not_null<F: Fn(&str) -> Option<u64>>(p: &mut RFile, depth: &Depth, parse: &F) -> (r:
    Result<Obj, Error>)
    requires
        old(p).wf(),
        parser_ok(*parse),
    ensures
        final(p).follows(old(p)),
        r is Ok ==> final(p).pos > old(p).pos,
        outcome(
            r,
            final(p).state(),
            read_value(
                old(p).bytes@,
                config(old(p).has_posonlyargcount, *parse),
                old(p).state(),
                depth.level(),
            ),
            |o: Obj| o@,
        ),
    decreases MAX_DEPTH - depth.level(), 1nat, 0nat,
{
    match r_object(p, depth, parse)? {
        Some(o) => Ok(o),
        None => Err(Error::UnexpectedNull),
    }
}

/// Reads `n` values.
fn r_vec<F: Fn(&str) -> Option<u64>>(n: usize, p: &mut RFile, depth: &Depth, parse: &F) -> (r: Result<
    Vec<Obj>,
    Error,
>)
    requires
        old(p).wf(),
        parser_ok(*parse),
    ensures
        final(p).follows(old(p)),
        outcome(
            r,
            final(p).state(),
            read_items(
                old(p).bytes@,
                config(old(p).has_posonlyargcount, *parse),
                old(p).state(),
                depth.level(),
                n as nat,
                Seq::empty(),
            ),
            |v: Vec<Obj>| objs_view(v@),
        ),
    decreases MAX_DEPTH - depth.level(), 2nat, 0nat,
{
    broadcast use group_views;

    let mut vec: Vec<Obj> = Vec::new();
    let mut i: usize = 0;
    let ghost bytes = p.bytes@;
    let ghost cfg = config(p.has_posonlyargcount, *parse);
    let ghost start = p.state();
    assert(objs_view(vec@) =~= Seq::<Value>::empty());
    while i < n
        invariant
            i <= n,
            p.follows(old(p)),
            parser_ok(*parse),
            bytes == p.bytes@,
            start == old(p).state(),
            cfg == config(p.has_posonlyargcount, *parse),
            read_items(bytes, cfg, start, depth.level(), n as nat, Seq::empty()) == read_items(
                bytes,
                cfg,
                p.state(),
                depth.level(),
                (n - i) as nat,
                objs_view(vec@),
            ),
        decreases n - i,
    {
        broadcast use group_views;

        let o = r_object_not_null(p, depth, parse)?;
        assert(objs_view(vec@.push(o)) =~= objs_view(vec@).push(o@));
        vec.push(o);
        i = i + 1;
    }
    Ok(vec)
}

/// Reads `n` values into a new set.
fn r_hashset<F: Fn(&str) -> Option<u64>>(n: usize, p: &mut RFile, depth: &Depth, parse: &F) -> (r:
    Result<ObjSet, Error>)
    requires
        old(p).wf(),
        parser_ok(*parse),
    ensures
        final(p).follows(old(p)),
        outcome(
            r,
            final(p).state(),
            read_keys(
                old(p).bytes@,
                config(old(p).has_posonlyargcount, *parse),
                old(p).state(),
                depth.level(),
                n as nat,
                Seq::empty(),
            ),
            |s: ObjSet| s@,
        ),
    decreases MAX_DEPTH - depth.level(), 3nat, 0nat,
{
    let mut set = ObjSet::new();
    r_hashset_into(&mut set, n, p, depth, parse)?;
    Ok(set)
}

/// Reads `n` values into `set`; each must be a key.
fn r_hashset_into<F: Fn(&str) -> Option<u64>>(
    set: &mut ObjSet,
    n: usize,
    p: &mut RFile,
    depth: &Depth,
    parse: &F,
) -> (r: Result<(), Error>)
    requires
        old(p).wf(),
        parser_ok(*parse),
    ensures
        final(p).follows(old(p)),
        match read_keys(
            old(p).bytes@,
            config(old(p).has_posonlyargcount, *parse),
            old(p).state(),
            depth.level(),
            n as nat,
            old(set)@,
        ) {
            Ok((keys, st)) => r is Ok && final(set)@ == keys && final(p).state() == st,
            Err(e) => r matches Err(x) && x@ == e,
        },
    decreases MAX_DEPTH - depth.level(), 2nat, 0nat,
{
    let mut i: usize = 0;
    let ghost bytes = p.bytes@;
    let ghost cfg = config(p.has_posonlyargcount, *parse);
    let ghost start = p.state();
    while i < n
        invariant
            i <= n,
            p.follows(old(p)),
            parser_ok(*parse),
            bytes == p.bytes@,
            start == old(p).state(),
            cfg == config(p.has_posonlyargcount, *parse),
            read_keys(bytes, cfg, start, depth.level(), n as nat, old(set)@) == read_keys(
                bytes,
                cfg,
                p.state(),
                depth.level(),
                (n - i) as nat,
                set@,
            ),
        decreases n - i,
    {
        let o = r_object_not_null(p, depth, parse)?;
        match ObjHashable::try_from(&o) {
            Ok(k) => {
                set.insert(k);
            },
            Err(offender) => {
                return Err(Error::Unhashable(offender));
            },
        }
        i = i + 1;
    }
    Ok(())
}

/// Reads keys and values in turn into a new dictionary, until the null tag
/// stands where a key or a value would.
fn r_hashmap<F: Fn(&str) -> Option<u64>>(p: &mut RFile, depth: &Depth, parse: &F) -> (r: Result<
    ObjMap,
    Error,
>)
    requires
        old(p).wf(),
        parser_ok(*parse),
    ensures
        final(p).follows(old(p)),
        outcome(
            r,
            final(p).state(),
            read_pairs(
                old(p).bytes@,
                config(old(p).has_posonlyargcount, *parse),
                old(p).state(),
                depth.level(),
                Seq::empty(),
            ),
            |m: ObjMap| m@,
        ),
    decreases MAX_DEPTH - depth.level(), 2nat, 0nat,
{
    let mut map = ObjMap::new();
    let ghost bytes = p.bytes@;
    let ghost cfg = config(p.has_posonlyargcount, *parse);
    let ghost start = p.state();
    loop
        invariant
            p.follows(old(p)),
            parser_ok(*parse),
            bytes == p.bytes@,
            start == old(p).state(),
            cfg == config(p.has_posonlyargcount, *parse),
            read_pairs(bytes, cfg, start, depth.level(), Seq::empty()) == read_pairs(
                bytes,
                cfg,
                p.state(),
                depth.level(),
                map@,
            ),
        decreases p.bytes@.len() - p.pos,
    {
        let key = match r_object(p, depth, parse)? {
            Some(key) => key,
            None => {
                return Ok(map);
            },
        };
        let value = match r_object(p, depth, parse)? {
            Some(value) => value,
            None => {
                return Ok(map);
            },
        };
        match ObjHashable::try_from(&key) {
            Ok(k) => {
                map.insert(k, value);
            },
            Err(offender) => {
                return Err(Error::Unhashable(offender));
            },
        }
    }
}

/// Reads a value that must be a text.
fn r_object_extract_string<F: Fn(&str) -> Option<u64>>(p: &mut RFile, depth: &Depth, parse: &F) -> (r:
    Result<Arc<String>, Error>)
    requires
        old(p).wf(),
        parser_ok(*parse),
    ensures
        final(p).follows(old(p)),
        outcome(
            r,
            final(p).state(),
            read_string_field(
                old(p).bytes@,
                config(old(p).has_posonlyargcount, *parse),
                old(p).state(),
                depth.level(),
            ),
            |s: Arc<String>| s@,
        ),
    decreases MAX_DEPTH - depth.level(), 2nat, 0nat,
{
    broadcast use group_views;

    match r_object_not_null(p, depth, parse)? {
        Obj::String(s) => Ok(s),
        other => Err(Error::TypeError(other)),
    }
}

/// Reads a value that must be a byte string.
fn r_object_extract_bytes<F: Fn(&str) -> Option<u64>>(p: &mut RFile, depth: &Depth, parse: &F) -> (r:
    Result<Arc<Vec<u8>>, Error>)
    requires
        old(p).wf(),
        parser_ok(*parse),
    ensures
        final(p).follows(old(p)),
        outcome(
            r,
            final(p).state(),
            read_bytes_field(
                old(p).bytes@,
                config(old(p).has_posonlyargcount, *parse),
                old(p).state(),
                depth.level(),
            ),
            |b: Arc<Vec<u8>>| b@,
        ),
    decreases MAX_DEPTH - depth.level(), 2nat, 0nat,
{
    broadcast use group_views;

    match r_object_not_null(p, depth, parse)? {
        Obj::Bytes(b) => Ok(b),
        other => Err(Error::TypeError(other)),
    }
}

/// Reads a value that must be a tuple.
fn r_object_extract_tuple<F: Fn(&str) -> Option<u64>>(p: &mut RFile, depth: &Depth, parse: &F) -> (r:
    Result<Arc<Vec<Obj>>, Error>)
    requires
        old(p).wf(),
        parser_ok(*parse),
    ensures
        final(p).follows(old(p)),
        outcome(
            r,
            final(p).state(),
            read_tuple_field(
                old(p).bytes@,
                config(old(p).has_posonlyargcount, *parse),
                old(p).state(),
                depth.level(),
            ),
            |t: Arc<Vec<Obj>>| objs_view(t@),
        ),
    decreases MAX_DEPTH - depth.level(), 2nat, 0nat,
{
    broadcast use group_views;

    match r_object_not_null(p, depth, parse)? {
        Obj::Tuple(t) => Ok(t),
        other => Err(Error::TypeError(other)),
    }
}

/// The texts of one more value.
proof fn lemma_all_strings_step(items: Seq<Value>, n: int)
    requires
        0 <= n < items.len(),
    ensures
        all_strings(items.take(n + 1)) == match all_strings(items.take(n)) {
            Err(v) => Err(v),
            Ok(texts) => match items[n] {
                Value::String(text) => Ok(texts.push(text)),
                v => Err(v),
            },
        },
{
    assert(items.take(n + 1).drop_last() =~= items.take(n));
}

/// A value that is no text among the first makes the whole fail with it.
proof fn lemma_all_strings_err(items: Seq<Value>, n: int)
    requires
        0 <= n <= items.len(),
        all_strings(items.take(n)) is Err,
    ensures
        all_strings(items) == all_strings(items.take(n)),
    decreases items.len() - n,
{
    if n < items.len() {
        lemma_all_strings_step(items, n);
        lemma_all_strings_err(items, n + 1);
    } else {
        assert(items.take(n) =~= items);
    }
}

/// Reads a value that must be a tuple of texts.
fn r_object_extract_tuple_string<F: Fn(&str) -> Option<u64>>(
    p: &mut RFile,
    depth: &Depth,
    parse: &F,
) -> (r: Result<Vec<Arc<String>>, Error>)
    requires
        old(p).wf(),
        parser_ok(*parse),
    ensures
        final(p).follows(old(p)),
        outcome(
            r,
            final(p).state(),
            read_strings_field(
                old(p).bytes@,
                config(old(p).has_posonlyargcount, *parse),
                old(p).state(),
                depth.level(),
            ),
            |v: Vec<Arc<String>>| strings_view(v@),
        ),
    decreases MAX_DEPTH - depth.level(), 3nat, 0nat,
{
    broadcast use group_views;

    let ghost expected = read_tuple_field(
        p.bytes@,
        config(p.has_posonlyargcount, *parse),
        p.state(),
        depth.level(),
    );
    let items = r_object_extract_tuple(p, depth, parse)?;
    let mut texts: Vec<Arc<String>> = Vec::new();
    let mut i: usize = 0;
    let ghost values = objs_view(items@);
    assert(values.take(0) =~= Seq::<Value>::empty());
    assert(strings_view(texts@) =~= Seq::<Seq<char>>::empty());
    while i < items.len()
        invariant
            i <= items.len(),
            p.follows(old(p)),
            values == objs_view(items@),
            expected == read_tuple_field(
                old(p).bytes@,
                config(old(p).has_posonlyargcount, *parse),
                old(p).state(),
                depth.level(),
            ),
            expected == Ok::<(Seq<Value>, State), ErrorValue>((values, p.state())),
            all_strings(values.take(i as int)) == Ok::<Seq<Seq<char>>, Value>(strings_view(texts@)),
        decreases items.len() - i,
    {
        broadcast use group_views;

        proof {
            lemma_all_strings_step(values, i as int);
        }
        match &items[i] {
            Obj::String(s) => {
                assert(strings_view(texts@.push(*s)) =~= strings_view(texts@).push(s@));
                texts.push(arc_clone(s));
            },
            other => {
                proof {
                    lemma_all_strings_err(values, i + 1);
                }
                return Err(Error::TypeError(other.clone()));
            },
        }
        i = i + 1;
    }
    assert(values.take(i as int) =~= values);
    Ok(texts)
}

/// The numbers at the start of a code record.
struct Head {
    argcount: u32,
    posonlyargcount: u32,
    kwonlyargcount: u32,
    nlocals: u32,
    stacksize: u32,
    flags: CodeFlags,
}

impl Head {
    spec fn view(&self) -> CodeHead {
        CodeHead {
            argcount: self.argcount,
            posonlyargcount: self.posonlyargcount,
            kwonlyargcount: self.kwonlyargcount,
            nlocals: self.nlocals,
            stacksize: self.stacksize,
            flags: self.flags.spec_bits(),
        }
    }
}

/// Reads the numbers at the start of a code record.
fn r_code_head(p: &mut RFile) -> (r: Result<Head, Error>)
    requires
        old(p).wf(),
    ensures
        final(p).follows(old(p)),
        forall|floats: spec_fn(Seq<char>) -> Option<u64>|
            outcome(
                r,
                final(p).state(),
                #[trigger] read_code_head(
                    old(p).bytes@,
                    Config { has_posonlyargcount: old(p).has_posonlyargcount, floats },
                    old(p).state(),
                ),
                |h: Head| h.view(),
            ),
{
    let argcount = r_long(p)?;
    let posonlyargcount = if p.has_posonlyargcount {
        r_long(p)?
    } else {
        0
    };
    let kwonlyargcount = r_long(p)?;
    let nlocals = r_long(p)?;
    let stacksize = r_long(p)?;
    let flags = CodeFlags::from_bits_truncate(r_long(p)?);
    Ok(Head { argcount, posonlyargcount, kwonlyargcount, nlocals, stacksize, flags })
}

/// The four tuples of names of a code record.
struct Names {
    names: Vec<Arc<String>>,
    varnames: Vec<Arc<String>>,
    freevars: Vec<Arc<String>>,
    cellvars: Vec<Arc<String>>,
}

impl Names {
    spec fn view(&self) -> CodeNames {
        CodeNames {
            names: strings_view(self.names@),
            varnames: strings_view(self.varnames@),
            freevars: strings_view(self.freevars@),
            cellvars: strings_view(self.cellvars@),
        }
    }
}

/// Reads the four tuples of names of a code record.
fn r_code_names<F: Fn(&str) -> Option<u64>>(p: &mut RFile, depth: &Depth, parse: &F) -> (r: Result<
    Names,
    Error,
>)
    requires
        old(p).wf(),
        parser_ok(*parse),
    ensures
        final(p).follows(old(p)),
        outcome(
            r,
            final(p).state(),
            read_code_names(
                old(p).bytes@,
                config(old(p).has_posonlyargcount, *parse),
                old(p).state(),
                depth.level(),
            ),
            |n: Names| n.view(),
        ),
    decreases MAX_DEPTH - depth.level(), 4nat, 0nat,
{
    let names = r_object_extract_tuple_string(p, depth, parse)?;
    let varnames = r_object_extract_tuple_string(p, depth, parse)?;
    let freevars = r_object_extract_tuple_string(p, depth, parse)?;
    let cellvars = r_object_extract_tuple_string(p, depth, parse)?;
    Ok(Names { names, varnames, freevars, cellvars })
}

/// Reads a code record.
fn r_code<F: Fn(&str) -> Option<u64>>(p: &mut RFile, depth: &Depth, parse: &F) -> (r: Result<
    Code,
    Error,
>)
    requires
        old(p).wf(),
        parser_ok(*parse),
    ensures
        final(p).follows(old(p)),
        outcome(
            r,
            final(p).state(),
            read_code(
                old(p).bytes@,
                config(old(p).has_posonlyargcount, *parse),
                old(p).state(),
                depth.level(),
            ),
            |c: Code| c@,
        ),
    decreases MAX_DEPTH - depth.level(), 5nat, 0nat,
{
    let ghost cfg = config(p.has_posonlyargcount, *parse);
    let ghost bytes = p.bytes@;
    assert(read_code_head(bytes, cfg, p.state()) == read_code_head(
        bytes,
        Config { has_posonlyargcount: p.has_posonlyargcount, floats: float_model(*parse) },
        p.state(),
    ));
    let head = r_code_head(p)?;
    let code = r_object_extract_bytes(p, depth, parse)?;
    let consts = r_object_extract_tuple(p, depth, parse)?;
    let names = r_code_names(p, depth, parse)?;
    let filename = r_object_extract_string(p, depth, parse)?;
    let name = r_object_extract_string(p, depth, parse)?;
    let firstlineno = r_long(p)?;
    let lnotab = r_object_extract_bytes(p, depth, parse)?;
    Ok(
        Code {
            argcount: head.argcount,
            posonlyargcount: head.posonlyargcount,
            kwonlyargcount: head.kwonlyargcount,
            nlocals: head.nlocals,
            stacksize: head.stacksize,
            flags: head.flags,
            code,
            consts,
            names: names.names,
            varnames: names.varnames,
            freevars: names.freevars,
            cellvars: names.cellvars,
            filename,
            name,
            firstlineno,
            lnotab,
        },
    )
}

/// Reads the one value that the bytes hold.
fn read_object<F: Fn(&str) -> Option<u64>>(p: &mut RFile, parse: &F) -> (r: Result<Obj, Error>)
    requires
        old(p).wf(),
        parser_ok(*parse),
    ensures
        final(p).follows(old(p)),
        outcome(
            r,
            final(p).state(),
            read_value(old(p).bytes@, config(old(p).has_posonlyargcount, *parse), old(p).state(), 0),
            |o: Obj| o@,
        ),
{
    let depth = Depth::new();
    r_object_not_null(p, &depth, parse)
}

/// Whether `r` is what `expected` says: the same failure, or a value with
/// the same view.
pub open spec fn decoded(r: Result<Obj, Error>, expected: Result<Value, ErrorValue>) -> bool {
    match expected {
        Ok(v) => r matches Ok(o) && o@ == v,
        Err(e) => r matches Err(x) && x@ == e,
    }
}

/// Decodes the value that `readable` holds. `parse_float` reads the
/// decimal text of a floating-point number as its IEEE-754 binary64 bit
/// pattern, or says that it is no number.
pub fn marshal_load_ex<F: Fn(&str) -> Option<u64>>(
    readable: &[u8],
    opts: MarshalLoadExOptions,
    parse_float: F,
) -> (r: Result<Obj, Error>)
    requires
        parser_ok(parse_float),
    ensures
        decoded(r, decode(readable@, config(opts.has_posonlyargcount, parse_float))),
{
    let mut rf = RFile {
        bytes: readable,
        pos: 0,
        refs: Vec::new(),
        has_posonlyargcount: opts.has_posonlyargcount,
    };
    proof {
        broadcast use group_views;

        assert(objs_view(rf.refs@) =~= Seq::<Value>::empty());
    }
    read_object(&mut rf, &parse_float)
}

/// Decodes the value that `readable` holds, with the options for the
/// latest version of the format.
pub fn marshal_load<F: Fn(&str) -> Option<u64>>(readable: &[u8], parse_float: F) -> (r: Result<
    Obj,
    Error,
>)
    requires
        parser_ok(parse_float),
    ensures
        decoded(r, decode(readable@, config(true, parse_float))),
{
    marshal_load_ex(readable, MarshalLoadExOptions::default(), parse_float)
}

/// Decodes the value that `bytes` holds, with the options for the latest
/// version of the format.
pub fn marshal_loads<F: Fn(&str) -> Option<u64>>(bytes: &[u8], parse_float: F) -> (r: Result<
    Obj,
    Error,
>)
    requires
        parser_ok(parse_float),
    ensures
        decoded(r, decode(bytes@, config(true, parse_float))),
{
    marshal_load(bytes, parse_float)
}

} // verus!
