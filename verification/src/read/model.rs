//! What a stream of bytes denotes: the decoder as a mathematical function.
//!
//! A read starts at a cursor into the bytes and with the values kept for
//! references so far; it ends in a failure, or in what was read together
//! with the cursor and the kept values after it.
use vstd::prelude::*;
use vstd::utf8::{decode_utf8, valid_utf8};
use crate::depth::MAX_DEPTH;
use crate::flags::ALL_FLAGS;
use crate::read::errors::{eof, ErrorValue};
use crate::read::types::{reserves_slot, type_of_code, Type, FLAG_REF};
use crate::utils::digits_value;
use crate::value::{map_insert, set_insert, to_key, CodeValue, ComplexBits, Key, Value};

verus! {

/// What a read depends on besides the bytes.
pub struct Config {
    /// Whether a code record holds the `posonlyargcount` field.
    pub has_posonlyargcount: bool,
    /// The bit pattern of the number that a decimal text denotes, if it
    /// denotes one.
    pub floats: spec_fn(Seq<char>) -> Option<u64>,
}

/// Where a read stands.
pub struct State {
    /// How many bytes were consumed.
    pub pos: int,
    /// The values kept for references. `PyNone` marks a place that was
    /// taken and not filled yet.
    pub refs: Seq<Value>,
}

/// How a read ends.
pub type Step<T> = Result<(T, State), ErrorValue>;

impl State {
    /// The state after `n` more bytes were consumed.
    pub open spec fn advance(self, n: int) -> State {
        State { pos: self.pos + n, refs: self.refs }
    }
}

/// The number whose two little-endian bytes start at `pos`.
pub open spec fn le_u16(bytes: Seq<u8>, pos: int) -> int {
    bytes[pos] + 0x100 * bytes[pos + 1]
}

/// The number whose four little-endian bytes start at `pos`.
pub open spec fn le_u32(bytes: Seq<u8>, pos: int) -> int {
    bytes[pos] + 0x100 * bytes[pos + 1] + 0x1_0000 * bytes[pos + 2] + 0x100_0000 * bytes[pos + 3]
}

/// The number whose eight little-endian bytes start at `pos`.
pub open spec fn le_u64(bytes: Seq<u8>, pos: int) -> int {
    le_u32(bytes, pos) + 0x1_0000_0000 * le_u32(bytes, pos + 4)
}

/// A 32-bit pattern read as a two's-complement number.
pub open spec fn signed32(x: int) -> int {
    if x < 0x8000_0000 {
        x
    } else {
        x - 0x1_0000_0000
    }
}

/// A 64-bit pattern read as a two's-complement number.
pub open spec fn signed64(x: int) -> int {
    if x < 0x8000_0000_0000_0000 {
        x
    } else {
        x - 0x1_0000_0000_0000_0000
    }
}

/// Whether `n` more bytes can be consumed.
pub open spec fn has_bytes(bytes: Seq<u8>, st: State, n: int) -> bool {
    0 <= st.pos && st.pos + n <= bytes.len()
}

/// Reads one byte.
pub open spec fn take_u8(bytes: Seq<u8>, st: State) -> Step<u8> {
    if has_bytes(bytes, st, 1) {
        Ok((bytes[st.pos], st.advance(1)))
    } else {
        Err(eof())
    }
}

/// Reads a little-endian 16-bit number.
pub open spec fn take_u16(bytes: Seq<u8>, st: State) -> Step<u16> {
    if has_bytes(bytes, st, 2) {
        Ok((le_u16(bytes, st.pos) as u16, st.advance(2)))
    } else {
        Err(eof())
    }
}

/// Reads a little-endian 32-bit number.
pub open spec fn take_u32(bytes: Seq<u8>, st: State) -> Step<u32> {
    if has_bytes(bytes, st, 4) {
        Ok((le_u32(bytes, st.pos) as u32, st.advance(4)))
    } else {
        Err(eof())
    }
}

/// Reads a little-endian 64-bit number.
pub open spec fn take_u64(bytes: Seq<u8>, st: State) -> Step<u64> {
    if has_bytes(bytes, st, 8) {
        Ok((le_u64(bytes, st.pos) as u64, st.advance(8)))
    } else {
        Err(eof())
    }
}

/// Reads `n` bytes.
pub open spec fn take_bytes(bytes: Seq<u8>, st: State, n: nat) -> Step<Seq<u8>> {
    if has_bytes(bytes, st, n as int) {
        Ok((bytes.subrange(st.pos, st.pos + n), st.advance(n as int)))
    } else {
        Err(eof())
    }
}

/// Reads `n` bytes of UTF-8 as a text.
pub open spec fn take_string(bytes: Seq<u8>, st: State, n: nat) -> Step<Seq<char>> {
    match take_bytes(bytes, st, n) {
        Err(e) => Err(e),
        Ok((raw, st1)) => if valid_utf8(raw) {
            Ok((decode_utf8(raw), st1))
        } else {
            Err(ErrorValue::Utf8)
        },
    }
}

/// Reads a floating-point number written as a decimal text behind a
/// one-byte length.
pub open spec fn take_float_text(bytes: Seq<u8>, cfg: Config, st: State) -> Step<u64> {
    match take_u8(bytes, st) {
        Err(e) => Err(e),
        Ok((n, st1)) => match take_string(bytes, st1, n as nat) {
            Err(e) => Err(e),
            Ok((text, st2)) => match (cfg.floats)(text) {
                Some(bits) => Ok((bits, st2)),
                None => Err(ErrorValue::ParseFloat),
            },
        },
    }
}

/// Reads `count` 15-bit digits behind those in `acc`.
pub open spec fn read_digits(bytes: Seq<u8>, st: State, count: nat, acc: Seq<u16>) -> Step<Seq<u16>>
    decreases count,
{
    if count == 0 {
        Ok((acc, st))
    } else {
        match take_u16(bytes, st) {
            Err(e) => Err(e),
            Ok((d, st1)) => if d >= 0x8000 {
                Err(ErrorValue::DigitOutOfRange { digit: d })
            } else {
                read_digits(bytes, st1, (count - 1) as nat, acc.push(d))
            },
        }
    }
}

/// Reads an integer of any size: a signed count of digits, then the
/// digits, of which the last must not be 0.
pub open spec fn read_pylong(bytes: Seq<u8>, st: State) -> Step<int> {
    match take_u32(bytes, st) {
        Err(e) => Err(e),
        Ok((raw, st1)) => {
            let n = signed32(raw as int);
            if n == 0 {
                Ok((0int, st1))
            } else {
                let size = if n < 0 {
                    -n
                } else {
                    n
                };
                match read_digits(bytes, st1, size as nat, Seq::empty()) {
                    Err(e) => Err(e),
                    Ok((digits, st2)) => if digits.last() == 0 {
                        Err(ErrorValue::UnnormalizedLong)
                    } else if n < 0 {
                        Ok((-(digits_value(digits) as int), st2))
                    } else {
                        Ok((digits_value(digits) as int, st2))
                    },
                }
            }
        },
    }
}

/// Whether a value never takes a place among the references.
pub open spec fn is_singleton(v: Value) -> bool {
    v is PyNone || v is StopIteration || v is Ellipsis || v is Bool
}

/// The kept values after a record of type `ty` took its place, where it
/// takes one before its parts are read: a set stands there as the empty set,
/// any other as the mark `PyNone`.
pub open spec fn reserve(refs: Seq<Value>, ty: Type, flag: bool) -> Seq<Value> {
    if flag && reserves_slot(ty) {
        refs.push(
            if ty is PySet {
                Value::PySet(Seq::empty())
            } else {
                Value::PyNone
            },
        )
    } else {
        refs
    }
}

/// The kept values after a record of type `ty` was read as `v`. With the
/// flag, what is no singleton fills the place that the record took, or is
/// added at the end where it took none.
pub open spec fn publish(refs: Seq<Value>, v: Option<Value>, ty: Type, flag: bool, slot: int) -> Seq<
    Value,
> {
    match v {
        Some(x) => if flag && !is_singleton(x) {
            if reserves_slot(ty) {
                refs.update(slot, x)
            } else {
                refs.push(x)
            }
        } else {
            refs
        },
        None => refs,
    }
}

/// Reads one record with `depth` records open around it. `None` is what
/// the null tag reads as.
pub open spec fn read_object(bytes: Seq<u8>, cfg: Config, st: State, depth: nat) -> Step<Option<Value>>
    decreases MAX_DEPTH - depth, 1nat, 0nat,
{
    match take_u8(bytes, st) {
        Err(e) => Err(e),
        Ok((code, st1)) => read_tagged(bytes, cfg, code, st1, depth),
    }
}

/// Reads the record whose tag byte `code` was consumed. The high bit of
/// the tag is the reference flag, the other seven name the type. With the
/// flag, the record comes to stand among the kept values, at the place
/// that those before it left free.
pub open spec fn read_tagged(bytes: Seq<u8>, cfg: Config, code: u8, st: State, depth: nat) -> Step<
    Option<Value>,
>
    decreases MAX_DEPTH - depth, 0nat, 0nat,
{
    if depth >= MAX_DEPTH {
        Err(ErrorValue::RecursionLimitExceeded)
    } else {
        let flag = code & FLAG_REF != 0;
        match type_of_code(code & !FLAG_REF) {
            None => Err(ErrorValue::InvalidType { spec: code & !FLAG_REF }),
            Some(ty) => {
                let slot = st.refs.len() as int;
                let reserved = State { pos: st.pos, refs: reserve(st.refs, ty, flag) };
                match read_payload(bytes, cfg, ty, reserved, depth + 1) {
                    Err(e) => Err(e),
                    Ok((v, st1)) => Ok(
                        (v, State { pos: st1.pos, refs: publish(st1.refs, v, ty, flag, slot) }),
                    ),
                }
            },
        }
    }
}

/// Reads what follows the tag of a record of type `ty`; the parts of the
/// record are read with `depth` records open around them.
pub open spec fn read_payload(bytes: Seq<u8>, cfg: Config, ty: Type, st: State, depth: nat) -> Step<
    Option<Value>,
>
    decreases MAX_DEPTH - depth, 7nat, 0nat,
{
    match ty {
        Type::Null => Ok((None, st)),
        Type::PyNone => Ok((Some(Value::PyNone), st)),
        Type::StopIter => Ok((Some(Value::StopIteration), st)),
        Type::Ellipsis => Ok((Some(Value::Ellipsis), st)),
        Type::False => Ok((Some(Value::Bool(false)), st)),
        Type::True => Ok((Some(Value::Bool(true)), st)),
        Type::Int => match take_u32(bytes, st) {
            Err(e) => Err(e),
            Ok((x, st1)) => Ok((Some(Value::Long(signed32(x as int))), st1)),
        },
        Type::Int64 => match take_u64(bytes, st) {
            Err(e) => Err(e),
            Ok((x, st1)) => Ok((Some(Value::Long(signed64(x as int))), st1)),
        },
        Type::Long => match read_pylong(bytes, st) {
            Err(e) => Err(e),
            Ok((x, st1)) => Ok((Some(Value::Long(x)), st1)),
        },
        Type::Float => match take_float_text(bytes, cfg, st) {
            Err(e) => Err(e),
            Ok((x, st1)) => Ok((Some(Value::Float(x)), st1)),
        },
        Type::BinaryFloat => match take_u64(bytes, st) {
            Err(e) => Err(e),
            Ok((x, st1)) => Ok((Some(Value::Float(x)), st1)),
        },
        Type::Complex => match take_float_text(bytes, cfg, st) {
            Err(e) => Err(e),
            Ok((re, st1)) => match take_float_text(bytes, cfg, st1) {
                Err(e) => Err(e),
                Ok((im, st2)) => Ok((Some(Value::Complex(ComplexBits { re, im })), st2)),
            },
        },
        Type::BinaryComplex => match take_u64(bytes, st) {
            Err(e) => Err(e),
            Ok((re, st1)) => match take_u64(bytes, st1) {
                Err(e) => Err(e),
                Ok((im, st2)) => Ok((Some(Value::Complex(ComplexBits { re, im })), st2)),
            },
        },
        Type::String => match take_u32(bytes, st) {
            Err(e) => Err(e),
            Ok((n, st1)) => match take_bytes(bytes, st1, n as nat) {
                Err(e) => Err(e),
                Ok((raw, st2)) => Ok((Some(Value::Bytes(raw)), st2)),
            },
        },
        Type::AsciiInterned | Type::Ascii | Type::Interned | Type::Unicode => match take_u32(bytes, st) {
            Err(e) => Err(e),
            Ok((n, st1)) => match take_string(bytes, st1, n as nat) {
                Err(e) => Err(e),
                Ok((text, st2)) => Ok((Some(Value::String(text)), st2)),
            },
        },
        Type::ShortAsciiInterned | Type::ShortAscii => match take_u8(bytes, st) {
            Err(e) => Err(e),
            Ok((n, st1)) => match take_string(bytes, st1, n as nat) {
                Err(e) => Err(e),
                Ok((text, st2)) => Ok((Some(Value::String(text)), st2)),
            },
        },
        Type::SmallTuple => match take_u8(bytes, st) {
            Err(e) => Err(e),
            Ok((n, st1)) => match read_items(bytes, cfg, st1, depth, n as nat, Seq::empty()) {
                Err(e) => Err(e),
                Ok((items, st2)) => Ok((Some(Value::Tuple(items)), st2)),
            },
        },
        Type::Tuple => match take_u32(bytes, st) {
            Err(e) => Err(e),
            Ok((n, st1)) => match read_items(bytes, cfg, st1, depth, n as nat, Seq::empty()) {
                Err(e) => Err(e),
                Ok((items, st2)) => Ok((Some(Value::Tuple(items)), st2)),
            },
        },
        Type::List => match take_u32(bytes, st) {
            Err(e) => Err(e),
            Ok((n, st1)) => match read_items(bytes, cfg, st1, depth, n as nat, Seq::empty()) {
                Err(e) => Err(e),
                Ok((items, st2)) => Ok((Some(Value::List(items)), st2)),
            },
        },
        Type::PySet => match take_u32(bytes, st) {
            Err(e) => Err(e),
            Ok((n, st1)) => match read_keys(bytes, cfg, st1, depth, n as nat, Seq::empty()) {
                Err(e) => Err(e),
                Ok((keys, st2)) => Ok((Some(Value::PySet(keys)), st2)),
            },
        },
        Type::FrozenSet => match take_u32(bytes, st) {
            Err(e) => Err(e),
            Ok((n, st1)) => match read_keys(bytes, cfg, st1, depth, n as nat, Seq::empty()) {
                Err(e) => Err(e),
                Ok((keys, st2)) => Ok((Some(Value::FrozenSet(keys)), st2)),
            },
        },
        Type::Dict => match read_pairs(bytes, cfg, st, depth, Seq::empty()) {
            Err(e) => Err(e),
            Ok((entries, st1)) => Ok((Some(Value::Dict(entries)), st1)),
        },
        Type::Code => match read_code(bytes, cfg, st, depth) {
            Err(e) => Err(e),
            Ok((code, st1)) => Ok((Some(Value::Code(code)), st1)),
        },
        Type::Ref => match take_u32(bytes, st) {
            Err(e) => Err(e),
            Ok((n, st1)) => if n < st1.refs.len() && !(st1.refs[n as int] is PyNone) {
                Ok((Some(st1.refs[n as int]), st1))
            } else {
                Err(ErrorValue::InvalidRef)
            },
        },
        Type::Unknown => Err(ErrorValue::InvalidType { spec: 0x3f }),
    }
}

/// Reads one record that must be a value.
pub open spec fn read_value(bytes: Seq<u8>, cfg: Config, st: State, depth: nat) -> Step<Value>
    decreases MAX_DEPTH - depth, 2nat, 0nat,
{
    match read_object(bytes, cfg, st, depth) {
        Err(e) => Err(e),
        Ok((None, _)) => Err(ErrorValue::UnexpectedNull),
        Ok((Some(v), st1)) => Ok((v, st1)),
    }
}

/// Reads `n` values behind those in `acc`.
pub open spec fn read_items(bytes: Seq<u8>, cfg: Config, st: State, depth: nat, n: nat, acc: Seq<Value>) -> Step<
    Seq<Value>,
>
    decreases MAX_DEPTH - depth, 3nat, n,
{
    if n == 0 {
        Ok((acc, st))
    } else {
        match read_value(bytes, cfg, st, depth) {
            Err(e) => Err(e),
            Ok((v, st1)) => read_items(bytes, cfg, st1, depth, (n - 1) as nat, acc.push(v)),
        }
    }
}

/// Reads `n` values into the set `acc`; each must be a key.
pub open spec fn read_keys(bytes: Seq<u8>, cfg: Config, st: State, depth: nat, n: nat, acc: Seq<Key>) -> Step<
    Seq<Key>,
>
    decreases MAX_DEPTH - depth, 3nat, n,
{
    if n == 0 {
        Ok((acc, st))
    } else {
        match read_value(bytes, cfg, st, depth) {
            Err(e) => Err(e),
            Ok((v, st1)) => match to_key(v) {
                Err(offender) => Err(ErrorValue::Unhashable(offender)),
                Ok(k) => read_keys(bytes, cfg, st1, depth, (n - 1) as nat, set_insert(acc, k)),
            },
        }
    }
}

/// Reads keys and values in turn into the dictionary `acc`, until the null
/// tag stands where a key or a value would. Every pair consumes bytes, which
/// is what the test on the cursor says.
pub open spec fn read_pairs(bytes: Seq<u8>, cfg: Config, st: State, depth: nat, acc: Seq<(Key, Value)>) -> Step<
    Seq<(Key, Value)>,
>
    decreases MAX_DEPTH - depth, 3nat, bytes.len() - st.pos,
{
    match read_object(bytes, cfg, st, depth) {
        Err(e) => Err(e),
        Ok((None, st1)) => Ok((acc, st1)),
        Ok((Some(key), st1)) => match read_object(bytes, cfg, st1, depth) {
            Err(e) => Err(e),
            Ok((None, st2)) => Ok((acc, st2)),
            Ok((Some(value), st2)) => match to_key(key) {
                Err(offender) => Err(ErrorValue::Unhashable(offender)),
                Ok(k) => if st.pos < st2.pos <= bytes.len() {
                    read_pairs(bytes, cfg, st2, depth, map_insert(acc, k, value))
                } else {
                    Err(eof())
                },
            },
        },
    }
}

/// Reads a value that must be a byte string.
pub open spec fn read_bytes_field(bytes: Seq<u8>, cfg: Config, st: State, depth: nat) -> Step<Seq<u8>>
    decreases MAX_DEPTH - depth, 3nat, 0nat,
{
    match read_value(bytes, cfg, st, depth) {
        Err(e) => Err(e),
        Ok((Value::Bytes(raw), st1)) => Ok((raw, st1)),
        Ok((v, _)) => Err(ErrorValue::TypeError(v)),
    }
}

/// Reads a value that must be a text.
pub open spec fn read_string_field(bytes: Seq<u8>, cfg: Config, st: State, depth: nat) -> Step<Seq<char>>
    decreases MAX_DEPTH - depth, 3nat, 0nat,
{
    match read_value(bytes, cfg, st, depth) {
        Err(e) => Err(e),
        Ok((Value::String(text), st1)) => Ok((text, st1)),
        Ok((v, _)) => Err(ErrorValue::TypeError(v)),
    }
}

/// Reads a value that must be a tuple.
pub open spec fn read_tuple_field(bytes: Seq<u8>, cfg: Config, st: State, depth: nat) -> Step<Seq<Value>>
    decreases MAX_DEPTH - depth, 3nat, 0nat,
{
    match read_value(bytes, cfg, st, depth) {
        Err(e) => Err(e),
        Ok((Value::Tuple(items), st1)) => Ok((items, st1)),
        Ok((v, _)) => Err(ErrorValue::TypeError(v)),
    }
}

/// The texts that the values are, or the first value that is no text.
pub open spec fn all_strings(items: Seq<Value>) -> Result<Seq<Seq<char>>, Value>
    decreases items.len(),
{
    if items.len() == 0 {
        Ok(Seq::empty())
    } else {
        match all_strings(items.drop_last()) {
            Err(v) => Err(v),
            Ok(texts) => match items.last() {
                Value::String(text) => Ok(texts.push(text)),
                v => Err(v),
            },
        }
    }
}

/// Reads a value that must be a tuple of texts.
pub open spec fn read_strings_field(bytes: Seq<u8>, cfg: Config, st: State, depth: nat) -> Step<
    Seq<Seq<char>>,
>
    decreases MAX_DEPTH - depth, 4nat, 0nat,
{
    match read_tuple_field(bytes, cfg, st, depth) {
        Err(e) => Err(e),
        Ok((items, st1)) => match all_strings(items) {
            Err(v) => Err(ErrorValue::TypeError(v)),
            Ok(texts) => Ok((texts, st1)),
        },
    }
}

/// The numbers at the start of a code record.
pub struct CodeHead {
    pub argcount: u32,
    pub posonlyargcount: u32,
    pub kwonlyargcount: u32,
    pub nlocals: u32,
    pub stacksize: u32,
    pub flags: u32,
}

/// Reads the numbers at the start of a code record. Flag bits without a
/// name are dropped.
pub open spec fn read_code_head(bytes: Seq<u8>, cfg: Config, st: State) -> Step<CodeHead> {
    match take_u32(bytes, st) {
        Err(e) => Err(e),
        Ok((argcount, st1)) => match (if cfg.has_posonlyargcount {
            take_u32(bytes, st1)
        } else {
            Ok((0u32, st1))
        }) {
            Err(e) => Err(e),
            Ok((posonlyargcount, st2)) => match take_u32(bytes, st2) {
                Err(e) => Err(e),
                Ok((kwonlyargcount, st3)) => match take_u32(bytes, st3) {
                    Err(e) => Err(e),
                    Ok((nlocals, st4)) => match take_u32(bytes, st4) {
                        Err(e) => Err(e),
                        Ok((stacksize, st5)) => match take_u32(bytes, st5) {
                            Err(e) => Err(e),
                            Ok((flags, st6)) => Ok(
                                (
                                    CodeHead {
                                        argcount,
                                        posonlyargcount,
                                        kwonlyargcount,
                                        nlocals,
                                        stacksize,
                                        flags: flags & ALL_FLAGS,
                                    },
                                    st6,
                                ),
                            ),
                        },
                    },
                },
            },
        },
    }
}

/// The four tuples of names of a code record.
pub struct CodeNames {
    pub names: Seq<Seq<char>>,
    pub varnames: Seq<Seq<char>>,
    pub freevars: Seq<Seq<char>>,
    pub cellvars: Seq<Seq<char>>,
}

/// Reads the four tuples of names of a code record.
pub open spec fn read_code_names(bytes: Seq<u8>, cfg: Config, st: State, depth: nat) -> Step<CodeNames>
    decreases MAX_DEPTH - depth, 5nat, 0nat,
{
    match read_strings_field(bytes, cfg, st, depth) {
        Err(e) => Err(e),
        Ok((names, st1)) => match read_strings_field(bytes, cfg, st1, depth) {
            Err(e) => Err(e),
            Ok((varnames, st2)) => match read_strings_field(bytes, cfg, st2, depth) {
                Err(e) => Err(e),
                Ok((freevars, st3)) => match read_strings_field(bytes, cfg, st3, depth) {
                    Err(e) => Err(e),
                    Ok((cellvars, st4)) => Ok((CodeNames { names, varnames, freevars, cellvars }, st4)),
                },
            },
        },
    }
}

/// Reads a code record: the numbers, the bytecode, the constants, the four
/// tuples of names, the file name, the name, the first line and the line
/// table, in this order.
pub open spec fn read_code(bytes: Seq<u8>, cfg: Config, st: State, depth: nat) -> Step<CodeValue>
    decreases MAX_DEPTH - depth, 6nat, 0nat,
{
    match read_code_head(bytes, cfg, st) {
        Err(e) => Err(e),
        Ok((head, st1)) => match read_bytes_field(bytes, cfg, st1, depth) {
            Err(e) => Err(e),
            Ok((code, st2)) => match read_tuple_field(bytes, cfg, st2, depth) {
                Err(e) => Err(e),
                Ok((consts, st3)) => match read_code_names(bytes, cfg, st3, depth) {
                    Err(e) => Err(e),
                    Ok((names, st4)) => match read_string_field(bytes, cfg, st4, depth) {
                        Err(e) => Err(e),
                        Ok((filename, st5)) => match read_string_field(bytes, cfg, st5, depth) {
                            Err(e) => Err(e),
                            Ok((name, st6)) => match take_u32(bytes, st6) {
                                Err(e) => Err(e),
                                Ok((firstlineno, st7)) => match read_bytes_field(bytes, cfg, st7, depth) {
                                    Err(e) => Err(e),
                                    Ok((lnotab, st8)) => Ok(
                                        (
                                            CodeValue {
                                                argcount: head.argcount,
                                                posonlyargcount: head.posonlyargcount,
                                                kwonlyargcount: head.kwonlyargcount,
                                                nlocals: head.nlocals,
                                                stacksize: head.stacksize,
                                                flags: head.flags,
                                                code,
                                                consts,
                                                names: names.names,
                                                varnames: names.varnames,
                                                freevars: names.freevars,
                                                cellvars: names.cellvars,
                                                filename,
                                                name,
                                                firstlineno,
                                                lnotab,
                                            },
                                            st8,
                                        ),
                                    ),
                                },
                            },
                        },
                    },
                },
            },
        },
    }
}

/// What the bytes denote as a whole: the first record, read with no kept
/// values and no record open, which must be a value.
pub open spec fn decode(bytes: Seq<u8>, cfg: Config) -> Result<Value, ErrorValue> {
    match read_value(bytes, cfg, State { pos: 0, refs: Seq::empty() }, 0) {
        Err(e) => Err(e),
        Ok((v, _)) => Ok(v),
    }
}

} // verus!
