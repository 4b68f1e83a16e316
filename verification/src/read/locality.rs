//! A read looks at no byte before its cursor.
use vstd::prelude::*;
use crate::depth::MAX_DEPTH;
use crate::read::errors::ErrorValue;
use crate::read::laws::{
    lemma_flag_keeps_value, lemma_read_code_names_extends, lemma_read_object_extends,
    lemma_read_value_extends,
};
use crate::read::model::{
    publish, read_bytes_field, read_code, read_code_head, read_code_names, read_digits, read_items,
    read_keys, read_object, read_pairs, read_payload, read_pylong, read_string_field,
    read_strings_field, read_tagged, read_tuple_field, read_value, reserve, signed32, take_bytes,
    take_float_text, take_string, take_u16, take_u32, take_u64, take_u8, Config, State,
};
use crate::read::types::{type_of_code, Type, FLAG_REF};
use crate::value::{map_insert, set_insert, to_key, Key, Value};

verus! {

/// Whether two runs of bytes are of one length and the same from `pos` on.
#[verifier::opaque]
pub open spec fn agree_from(a: Seq<u8>, b: Seq<u8>, pos: int) -> bool {
    &&& a.len() == b.len()
    &&& forall|i: int| pos <= i < a.len() ==> a[i] == b[i]
}

/// Bytes that agree from some place on agree from every later place on.
pub proof fn lemma_agree_later(a: Seq<u8>, b: Seq<u8>, pos: int, later: int)
    requires
        agree_from(a, b, pos),
        pos <= later,
    ensures
        agree_from(a, b, later),
        a.len() == b.len(),
{
    reveal(agree_from);
}

/// Numbers, bytes and texts are read alike from bytes that agree from the
/// cursor on.
pub proof fn lemma_take_local(a: Seq<u8>, b: Seq<u8>, cfg: Config, st: State, n: nat)
    requires
        0 <= st.pos,
        agree_from(a, b, st.pos),
    ensures
        take_u8(a, st) == take_u8(b, st),
        take_u16(a, st) == take_u16(b, st),
        take_u32(a, st) == take_u32(b, st),
        take_u64(a, st) == take_u64(b, st),
        take_bytes(a, st, n) == take_bytes(b, st, n),
        take_string(a, st, n) == take_string(b, st, n),
        take_float_text(a, cfg, st) == take_float_text(b, cfg, st),
        a.len() == b.len(),
{
    reveal(agree_from);
    if st.pos + n <= a.len() {
        assert(a.subrange(st.pos, st.pos + n) =~= b.subrange(st.pos, st.pos + n));
    }
    if st.pos + 1 <= a.len() {
        let len = a[st.pos] as nat;
        let st1 = st.advance(1);
        if st1.pos + len <= a.len() {
            assert(a.subrange(st1.pos, st1.pos + len) =~= b.subrange(st1.pos, st1.pos + len));
        }
    }
}

/// Digits are read alike from bytes that agree from the cursor on.
pub proof fn lemma_read_digits_local(a: Seq<u8>, b: Seq<u8>, st: State, count: nat, acc: Seq<u16>)
    requires
        0 <= st.pos,
        agree_from(a, b, st.pos),
    ensures
        read_digits(a, st, count, acc) == read_digits(b, st, count, acc),
    decreases count,
{
    lemma_take_local(a, b, Config { has_posonlyargcount: true, floats: |t: Seq<char>| None::<u64> }, st, 0);
    if count > 0 {
        match take_u16(a, st) {
            Ok((d, st1)) => {
                if d < 0x8000 {
                    lemma_agree_later(a, b, st.pos, st1.pos);
                    lemma_read_digits_local(a, b, st1, (count - 1) as nat, acc.push(d));
                }
            },
            Err(_) => {},
        }
    }
}

/// An integer of any size is read alike from bytes that agree from the
/// cursor on.
pub proof fn lemma_read_pylong_local(a: Seq<u8>, b: Seq<u8>, st: State)
    requires
        0 <= st.pos,
        agree_from(a, b, st.pos),
    ensures
        read_pylong(a, st) == read_pylong(b, st),
{
    lemma_take_local(a, b, Config { has_posonlyargcount: true, floats: |t: Seq<char>| None::<u64> }, st, 0);
    match take_u32(a, st) {
        Ok((raw, st1)) => {
            let n = signed32(raw as int);
            let size = if n < 0 {
                -n
            } else {
                n
            };
            lemma_agree_later(a, b, st.pos, st1.pos);
            lemma_read_digits_local(a, b, st1, size as nat, Seq::empty());
        },
        Err(_) => {},
    }
}

/// A record is read alike from bytes that agree from the cursor on.
pub proof fn lemma_read_object_local(a: Seq<u8>, b: Seq<u8>, cfg: Config, st: State, depth: nat)
    requires
        0 <= st.pos,
        agree_from(a, b, st.pos),
    ensures
        read_object(a, cfg, st, depth) == read_object(b, cfg, st, depth),
    decreases MAX_DEPTH - depth, 1nat, 0nat,
{
    lemma_take_local(a, b, cfg, st, 0);
    match take_u8(a, st) {
        Ok((code, st1)) => {
            lemma_agree_later(a, b, st.pos, st1.pos);
            lemma_read_tagged_local(a, b, cfg, code, st1, depth);
        },
        Err(_) => {},
    }
}

/// What `lemma_read_object_local` says, of a record behind its tag.
pub proof fn lemma_read_tagged_local(
    a: Seq<u8>,
    b: Seq<u8>,
    cfg: Config,
    code: u8,
    st: State,
    depth: nat,
)
    requires
        0 <= st.pos,
        agree_from(a, b, st.pos),
    ensures
        read_tagged(a, cfg, code, st, depth) == read_tagged(b, cfg, code, st, depth),
    decreases MAX_DEPTH - depth, 0nat, 0nat,
{
    if depth < MAX_DEPTH {
        let flag = code & FLAG_REF != 0;
        match type_of_code(code & !FLAG_REF) {
            Some(ty) => {
                let reserved = State { pos: st.pos, refs: reserve(st.refs, ty, flag) };
                lemma_read_payload_local(a, b, cfg, ty, reserved, depth + 1);
            },
            None => {},
        }
    }
}

/// What `lemma_read_object_local` says, of what follows a tag.
pub proof fn lemma_read_payload_local(
    a: Seq<u8>,
    b: Seq<u8>,
    cfg: Config,
    ty: Type,
    st: State,
    depth: nat,
)
    requires
        0 <= st.pos,
        agree_from(a, b, st.pos),
    ensures
        read_payload(a, cfg, ty, st, depth) == read_payload(b, cfg, ty, st, depth),
    decreases MAX_DEPTH - depth, 7nat, 0nat,
{
    lemma_take_local(a, b, cfg, st, 0);
    match ty {
        Type::Long => {
            lemma_read_pylong_local(a, b, st);
        },
        Type::Complex => {
            match take_float_text(a, cfg, st) {
                Ok((_, st1)) => {
                    lemma_agree_later(a, b, st.pos, st1.pos);
                    lemma_take_local(a, b, cfg, st1, 0);
                },
                Err(_) => {},
            }
        },
        Type::BinaryComplex => {
            match take_u64(a, st) {
                Ok((_, st1)) => {
                    lemma_agree_later(a, b, st.pos, st1.pos);
                    lemma_take_local(a, b, cfg, st1, 0);
                },
                Err(_) => {},
            }
        },
        Type::String | Type::AsciiInterned | Type::Ascii | Type::Interned | Type::Unicode => {
            match take_u32(a, st) {
                Ok((n, st1)) => {
                    lemma_agree_later(a, b, st.pos, st1.pos);
                    lemma_take_local(a, b, cfg, st1, n as nat);
                },
                Err(_) => {},
            }
        },
        Type::ShortAsciiInterned | Type::ShortAscii => {
            match take_u8(a, st) {
                Ok((n, st1)) => {
                    lemma_agree_later(a, b, st.pos, st1.pos);
                    lemma_take_local(a, b, cfg, st1, n as nat);
                },
                Err(_) => {},
            }
        },
        Type::SmallTuple => {
            match take_u8(a, st) {
                Ok((n, st1)) => {
                    lemma_agree_later(a, b, st.pos, st1.pos);
                    lemma_read_items_local(a, b, cfg, st1, depth, n as nat, Seq::empty());
                },
                Err(_) => {},
            }
        },
        Type::Tuple | Type::List => {
            match take_u32(a, st) {
                Ok((n, st1)) => {
                    lemma_agree_later(a, b, st.pos, st1.pos);
                    lemma_read_items_local(a, b, cfg, st1, depth, n as nat, Seq::empty());
                },
                Err(_) => {},
            }
        },
        Type::PySet | Type::FrozenSet => {
            match take_u32(a, st) {
                Ok((n, st1)) => {
                    lemma_agree_later(a, b, st.pos, st1.pos);
                    lemma_read_keys_local(a, b, cfg, st1, depth, n as nat, Seq::empty());
                },
                Err(_) => {},
            }
        },
        Type::Dict => {
            lemma_read_pairs_local(a, b, cfg, st, depth, Seq::empty());
        },
        Type::Code => {
            lemma_read_code_local(a, b, cfg, st, depth);
        },
        _ => {},
    }
}

/// What `lemma_read_object_local` says, of a record that must be a value.
pub proof fn lemma_read_value_local(a: Seq<u8>, b: Seq<u8>, cfg: Config, st: State, depth: nat)
    requires
        0 <= st.pos,
        agree_from(a, b, st.pos),
    ensures
        read_value(a, cfg, st, depth) == read_value(b, cfg, st, depth),
        read_bytes_field(a, cfg, st, depth) == read_bytes_field(b, cfg, st, depth),
        read_string_field(a, cfg, st, depth) == read_string_field(b, cfg, st, depth),
        read_tuple_field(a, cfg, st, depth) == read_tuple_field(b, cfg, st, depth),
        read_strings_field(a, cfg, st, depth) == read_strings_field(b, cfg, st, depth),
    decreases MAX_DEPTH - depth, 2nat, 0nat,
{
    lemma_read_object_local(a, b, cfg, st, depth);
}

/// What `lemma_read_object_local` says, of a run of values.
pub proof fn lemma_read_items_local(
    a: Seq<u8>,
    b: Seq<u8>,
    cfg: Config,
    st: State,
    depth: nat,
    n: nat,
    acc: Seq<Value>,
)
    requires
        0 <= st.pos,
        agree_from(a, b, st.pos),
    ensures
        read_items(a, cfg, st, depth, n, acc) == read_items(b, cfg, st, depth, n, acc),
    decreases MAX_DEPTH - depth, 3nat, n,
{
    if n > 0 {
        lemma_read_value_local(a, b, cfg, st, depth);
        lemma_read_value_extends(a, cfg, st, depth);
        match read_value(a, cfg, st, depth) {
            Ok((v, st1)) => {
                lemma_agree_later(a, b, st.pos, st1.pos);
                lemma_read_items_local(a, b, cfg, st1, depth, (n - 1) as nat, acc.push(v));
            },
            Err(_) => {},
        }
    }
}

/// What `lemma_read_object_local` says, of the elements of a set.
pub proof fn lemma_read_keys_local(
    a: Seq<u8>,
    b: Seq<u8>,
    cfg: Config,
    st: State,
    depth: nat,
    n: nat,
    acc: Seq<Key>,
)
    requires
        0 <= st.pos,
        agree_from(a, b, st.pos),
    ensures
        read_keys(a, cfg, st, depth, n, acc) == read_keys(b, cfg, st, depth, n, acc),
    decreases MAX_DEPTH - depth, 3nat, n,
{
    if n > 0 {
        lemma_read_value_local(a, b, cfg, st, depth);
        lemma_read_value_extends(a, cfg, st, depth);
        match read_value(a, cfg, st, depth) {
            Ok((v, st1)) => {
                match to_key(v) {
                    Ok(k) => {
                        lemma_agree_later(a, b, st.pos, st1.pos);
                        lemma_read_keys_local(a, b, cfg, st1, depth, (n - 1) as nat, set_insert(acc, k));
                    },
                    Err(_) => {},
                }
            },
            Err(_) => {},
        }
    }
}

/// What `lemma_read_object_local` says, of the entries of a dictionary.
pub proof fn lemma_read_pairs_local(
    a: Seq<u8>,
    b: Seq<u8>,
    cfg: Config,
    st: State,
    depth: nat,
    acc: Seq<(Key, Value)>,
)
    requires
        0 <= st.pos,
        agree_from(a, b, st.pos),
    ensures
        read_pairs(a, cfg, st, depth, acc) == read_pairs(b, cfg, st, depth, acc),
    decreases MAX_DEPTH - depth, 3nat, a.len() - st.pos,
{
    lemma_agree_later(a, b, st.pos, st.pos);
    lemma_read_object_local(a, b, cfg, st, depth);
    lemma_read_object_extends(a, cfg, st, depth);
    match read_object(a, cfg, st, depth) {
        Ok((Some(key), st1)) => {
            lemma_agree_later(a, b, st.pos, st1.pos);
            lemma_read_object_local(a, b, cfg, st1, depth);
            lemma_read_object_extends(a, cfg, st1, depth);
            match read_object(a, cfg, st1, depth) {
                Ok((Some(value), st2)) => {
                    match to_key(key) {
                        Ok(k) => {
                            lemma_agree_later(a, b, st.pos, st2.pos);
                            lemma_read_pairs_local(a, b, cfg, st2, depth, map_insert(acc, k, value));
                        },
                        Err(_) => {},
                    }
                },
                _ => {},
            }
        },
        _ => {},
    }
}

/// What `lemma_read_object_local` says, of the numbers at the start of a
/// code record.
pub proof fn lemma_read_code_head_local(a: Seq<u8>, b: Seq<u8>, cfg: Config, st: State)
    requires
        0 <= st.pos,
        agree_from(a, b, st.pos),
    ensures
        read_code_head(a, cfg, st) == read_code_head(b, cfg, st),
{
    lemma_take_local(a, b, cfg, st, 0);
    let st1 = st.advance(4);
    lemma_agree_later(a, b, st.pos, st1.pos);
    lemma_take_local(a, b, cfg, st1, 0);
    let st2 = if cfg.has_posonlyargcount {
        st1.advance(4)
    } else {
        st1
    };
    lemma_agree_later(a, b, st.pos, st2.pos);
    lemma_take_local(a, b, cfg, st2, 0);
    let st3 = st2.advance(4);
    lemma_agree_later(a, b, st.pos, st3.pos);
    lemma_take_local(a, b, cfg, st3, 0);
    let st4 = st3.advance(4);
    lemma_agree_later(a, b, st.pos, st4.pos);
    lemma_take_local(a, b, cfg, st4, 0);
    let st5 = st4.advance(4);
    lemma_agree_later(a, b, st.pos, st5.pos);
    lemma_take_local(a, b, cfg, st5, 0);
}

/// What `lemma_read_object_local` says, of the four tuples of names.
pub proof fn lemma_read_code_names_local(a: Seq<u8>, b: Seq<u8>, cfg: Config, st: State, depth: nat)
    requires
        0 <= st.pos,
        agree_from(a, b, st.pos),
    ensures
        read_code_names(a, cfg, st, depth) == read_code_names(b, cfg, st, depth),
    decreases MAX_DEPTH - depth, 5nat, 0nat,
{
    lemma_read_value_local(a, b, cfg, st, depth);
    lemma_read_value_extends(a, cfg, st, depth);
    match read_strings_field(a, cfg, st, depth) {
        Ok((_, st1)) => {
            lemma_agree_later(a, b, st.pos, st1.pos);
            lemma_read_value_local(a, b, cfg, st1, depth);
            lemma_read_value_extends(a, cfg, st1, depth);
            match read_strings_field(a, cfg, st1, depth) {
                Ok((_, st2)) => {
                    lemma_agree_later(a, b, st.pos, st2.pos);
                    lemma_read_value_local(a, b, cfg, st2, depth);
                    lemma_read_value_extends(a, cfg, st2, depth);
                    match read_strings_field(a, cfg, st2, depth) {
                        Ok((_, st3)) => {
                            lemma_agree_later(a, b, st.pos, st3.pos);
                            lemma_read_value_local(a, b, cfg, st3, depth);
                        },
                        Err(_) => {},
                    }
                },
                Err(_) => {},
            }
        },
        Err(_) => {},
    }
}

/// What `lemma_read_object_local` says, of a code record.
pub proof fn lemma_read_code_local(a: Seq<u8>, b: Seq<u8>, cfg: Config, st: State, depth: nat)
    requires
        0 <= st.pos,
        agree_from(a, b, st.pos),
    ensures
        read_code(a, cfg, st, depth) == read_code(b, cfg, st, depth),
    decreases MAX_DEPTH - depth, 6nat, 0nat,
{
    lemma_read_code_head_local(a, b, cfg, st);
    match read_code_head(a, cfg, st) {
        Ok((_, st1)) => {
            assert(st.pos <= st1.pos);
            lemma_agree_later(a, b, st.pos, st1.pos);
            lemma_read_value_local(a, b, cfg, st1, depth);
            lemma_read_value_extends(a, cfg, st1, depth);
            match read_bytes_field(a, cfg, st1, depth) {
                Ok((_, st2)) => {
                    lemma_agree_later(a, b, st.pos, st2.pos);
                    lemma_read_value_local(a, b, cfg, st2, depth);
                    lemma_read_value_extends(a, cfg, st2, depth);
                    match read_tuple_field(a, cfg, st2, depth) {
                        Ok((_, st3)) => {
                            lemma_agree_later(a, b, st.pos, st3.pos);
                            lemma_read_code_names_local(a, b, cfg, st3, depth);
                            lemma_read_code_names_extends(a, cfg, st3, depth);
                            match read_code_names(a, cfg, st3, depth) {
                                Ok((_, st4)) => {
                                    lemma_agree_later(a, b, st.pos, st4.pos);
                                    lemma_read_value_local(a, b, cfg, st4, depth);
                                    lemma_read_value_extends(a, cfg, st4, depth);
                                    match read_string_field(a, cfg, st4, depth) {
                                        Ok((_, st5)) => {
                                            lemma_agree_later(a, b, st.pos, st5.pos);
                                            lemma_read_value_local(a, b, cfg, st5, depth);
                                            lemma_read_value_extends(a, cfg, st5, depth);
                                            match read_string_field(a, cfg, st5, depth) {
                                                Ok((_, st6)) => {
                                                    lemma_agree_later(a, b, st.pos, st6.pos);
                                                    lemma_take_local(a, b, cfg, st6, 0);
                                                    match take_u32(a, st6) {
                                                        Ok((_, st7)) => {
                                                            lemma_agree_later(a, b, st.pos, st7.pos);
                                                            lemma_read_value_local(a, b, cfg, st7, depth);
                                                        },
                                                        Err(_) => {},
                                                    }
                                                },
                                                Err(_) => {},
                                            }
                                        },
                                        Err(_) => {},
                                    }
                                },
                                Err(_) => {},
                            }
                        },
                        Err(_) => {},
                    }
                },
                Err(_) => {},
            }
        },
        Err(_) => {},
    }
}

/// The reference flag on the bytes themselves: where two runs of bytes
/// differ in nothing but the flag of the tag at the cursor, the record with
/// the flag reads as the one without it does from the kept values among
/// which its place is taken. Both fail alike, or give the same value and
/// stop at the same byte.
pub proof fn lemma_flag_on_bytes(plain: Seq<u8>, flagged: Seq<u8>, cfg: Config, st: State, depth: nat)
    requires
        0 <= st.pos < plain.len(),
        agree_from(plain, flagged, st.pos + 1),
        plain[st.pos] & FLAG_REF == 0,
        flagged[st.pos] == plain[st.pos] | FLAG_REF,
    ensures
        match type_of_code(plain[st.pos]) {
            Some(ty) => {
                let slot = st.refs.len() as int;
                let taken = State { pos: st.pos, refs: reserve(st.refs, ty, true) };
                match read_object(plain, cfg, taken, depth) {
                    Ok((v, after)) => read_object(flagged, cfg, st, depth) == Ok::<
                        (Option<Value>, State),
                        ErrorValue,
                    >((v, State { pos: after.pos, refs: publish(after.refs, v, ty, true, slot) })),
                    Err(e) => read_object(flagged, cfg, st, depth) == Err::<
                        (Option<Value>, State),
                        ErrorValue,
                    >(e),
                }
            },
            None => read_object(flagged, cfg, st, depth) is Err && read_object(plain, cfg, st, depth)
                == read_object(flagged, cfg, st, depth),
        },
{
    let code = plain[st.pos];
    let st1 = st.advance(1);
    lemma_agree_later(plain, flagged, st.pos + 1, st1.pos);
    lemma_flag_keeps_value(plain, cfg, code, st1, depth);
    lemma_read_tagged_local(plain, flagged, cfg, code | FLAG_REF, st1, depth);
    lemma_read_tagged_local(plain, flagged, cfg, code, st1, depth);
    match type_of_code(code) {
        Some(ty) => {
            let taken = State { pos: st.pos, refs: reserve(st.refs, ty, true) };
            assert(take_u8(plain, taken) == Ok::<(u8, State), ErrorValue>((code, taken.advance(1))));
            assert(taken.advance(1) == State { pos: st1.pos, refs: reserve(st1.refs, ty, true) });
        },
        None => {
            assert(code & !0x80u8 == code) by (bit_vector)
                requires
                    code & 0x80 == 0,
            ;
        },
    }
}

} // verus!
