//! A read looks at no byte behind the last one that it consumes.
use vstd::prelude::*;
use crate::depth::MAX_DEPTH;
use crate::read::laws::{
    lemma_read_code_names_extends, lemma_read_items_extends, lemma_read_keys_extends,
    lemma_read_object_extends, lemma_read_pairs_extends, lemma_read_payload_extends,
    lemma_read_value_extends,
};
use crate::read::model::{
    decode, read_bytes_field, read_code, read_code_head, read_code_names, read_digits, read_items,
    read_keys, read_object, read_pairs, read_payload, read_pylong, read_string_field,
    read_strings_field, read_tagged, read_tuple_field, read_value, reserve, signed32, take_bytes,
    take_float_text, take_string, take_u16, take_u32, take_u64, take_u8, Config, State,
};
use crate::read::types::{type_of_code, Type, FLAG_REF};
use crate::value::{map_insert, set_insert, to_key, Key, Value};

verus! {

/// Whether two runs of bytes are both `end` long at least and the same
/// before `end`.
#[verifier::opaque]
pub open spec fn agree_before(a: Seq<u8>, b: Seq<u8>, end: int) -> bool {
    &&& end <= a.len()
    &&& end <= b.len()
    &&& forall|i: int| 0 <= i < end ==> a[i] == b[i]
}

/// Bytes that agree before some place agree before every earlier place.
pub proof fn lemma_agree_earlier(a: Seq<u8>, b: Seq<u8>, end: int, earlier: int)
    requires
        agree_before(a, b, end),
        earlier <= end,
    ensures
        agree_before(a, b, earlier),
{
    reveal(agree_before);
}

/// A number that was read is read alike from bytes that agree before the
/// place where it ends.
pub proof fn lemma_take_number_prefix(a: Seq<u8>, b: Seq<u8>, st: State)
    requires
        0 <= st.pos,
    ensures
        take_u8(a, st) matches Ok((_, after)) && agree_before(a, b, after.pos) ==> take_u8(b, st)
            == take_u8(a, st),
        take_u16(a, st) matches Ok((_, after)) && agree_before(a, b, after.pos) ==> take_u16(b, st)
            == take_u16(a, st),
        take_u32(a, st) matches Ok((_, after)) && agree_before(a, b, after.pos) ==> take_u32(b, st)
            == take_u32(a, st),
        take_u64(a, st) matches Ok((_, after)) && agree_before(a, b, after.pos) ==> take_u64(b, st)
            == take_u64(a, st),
{
    reveal(agree_before);
}

/// Bytes and texts that were read are read alike from bytes that agree
/// before the place where they end.
pub proof fn lemma_take_bytes_prefix(a: Seq<u8>, b: Seq<u8>, st: State, n: nat)
    requires
        0 <= st.pos,
    ensures
        take_bytes(a, st, n) matches Ok((_, after)) && agree_before(a, b, after.pos) ==> take_bytes(b, st, n)
            == take_bytes(a, st, n) && take_string(b, st, n) == take_string(a, st, n),
{
    reveal(agree_before);
    if st.pos + n <= a.len() && st.pos + n <= b.len() {
        if agree_before(a, b, st.pos + n) {
            assert(a.subrange(st.pos, st.pos + n) =~= b.subrange(st.pos, st.pos + n));
        }
    }
}

/// A decimal text that was read is read alike from bytes that agree
/// before the place where it ends.
pub proof fn lemma_take_float_text_prefix(a: Seq<u8>, b: Seq<u8>, cfg: Config, st: State)
    requires
        0 <= st.pos,
    ensures
        take_float_text(a, cfg, st) matches Ok((_, after)) && agree_before(a, b, after.pos)
            ==> take_float_text(b, cfg, st) == take_float_text(a, cfg, st),
{
    match take_float_text(a, cfg, st) {
        Ok((_, after)) => {
            if agree_before(a, b, after.pos) {
                let (n, st1) = take_u8(a, st)->Ok_0;
                lemma_agree_earlier(a, b, after.pos, st1.pos);
                lemma_take_number_prefix(a, b, st);
                lemma_take_bytes_prefix(a, b, st1, n as nat);
            }
        },
        Err(_) => {},
    }
}

/// Digits that were read are read alike from bytes that agree before the
/// place where they end.
pub proof fn lemma_read_digits_prefix(a: Seq<u8>, b: Seq<u8>, st: State, count: nat, acc: Seq<u16>)
    requires
        0 <= st.pos,
        read_digits(a, st, count, acc) matches Ok((_, after)) && agree_before(a, b, after.pos),
    ensures
        read_digits(b, st, count, acc) == read_digits(a, st, count, acc),
        read_digits(a, st, count, acc)->Ok_0.1.pos >= st.pos,
    decreases count,
{
    if count > 0 {
        let (d, st1) = take_u16(a, st)->Ok_0;
        lemma_read_digits_prefix(a, b, st1, (count - 1) as nat, acc.push(d));
        let after = read_digits(a, st, count, acc)->Ok_0.1;
        lemma_agree_earlier(a, b, after.pos, st1.pos);
        lemma_take_number_prefix(a, b, st);
    }
}

/// An integer of any size that was read is read alike from bytes that
/// agree before the place where it ends.
pub proof fn lemma_read_pylong_prefix(a: Seq<u8>, b: Seq<u8>, st: State)
    requires
        0 <= st.pos,
        read_pylong(a, st) matches Ok((_, after)) && agree_before(a, b, after.pos),
    ensures
        read_pylong(b, st) == read_pylong(a, st),
{
    let (raw, st1) = take_u32(a, st)->Ok_0;
    let n = signed32(raw as int);
    let after = read_pylong(a, st)->Ok_0.1;
    if n == 0 {
        lemma_take_number_prefix(a, b, st);
    } else {
        let size = if n < 0 {
            -n
        } else {
            n
        };
        lemma_read_digits_prefix(a, b, st1, size as nat, Seq::empty());
        lemma_agree_earlier(a, b, after.pos, st1.pos);
        lemma_take_number_prefix(a, b, st);
    }
}

/// A record that was read is read alike from bytes that agree before the
/// place where it ends: what follows it is not looked at.
pub proof fn lemma_read_object_prefix(a: Seq<u8>, b: Seq<u8>, cfg: Config, st: State, depth: nat)
    requires
        0 <= st.pos,
        read_object(a, cfg, st, depth) matches Ok((_, after)) && agree_before(a, b, after.pos),
    ensures
        read_object(b, cfg, st, depth) == read_object(a, cfg, st, depth),
    decreases MAX_DEPTH - depth, 1nat, 0nat,
{
    let (code, st1) = take_u8(a, st)->Ok_0;
    let after = read_object(a, cfg, st, depth)->Ok_0.1;
    lemma_read_tagged_prefix(a, b, cfg, code, st1, depth);
    crate::read::laws::lemma_read_tagged_extends(a, cfg, code, st1, depth);
    lemma_agree_earlier(a, b, after.pos, st1.pos);
    lemma_take_number_prefix(a, b, st);
}

/// What `lemma_read_object_prefix` says, of a record behind its tag.
pub proof fn lemma_read_tagged_prefix(
    a: Seq<u8>,
    b: Seq<u8>,
    cfg: Config,
    code: u8,
    st: State,
    depth: nat,
)
    requires
        0 <= st.pos,
        read_tagged(a, cfg, code, st, depth) matches Ok((_, after)) && agree_before(a, b, after.pos),
    ensures
        read_tagged(b, cfg, code, st, depth) == read_tagged(a, cfg, code, st, depth),
    decreases MAX_DEPTH - depth, 0nat, 0nat,
{
    let flag = code & FLAG_REF != 0;
    let ty = type_of_code(code & !FLAG_REF)->Some_0;
    let reserved = State { pos: st.pos, refs: reserve(st.refs, ty, flag) };
    lemma_read_payload_prefix(a, b, cfg, ty, reserved, depth + 1);
}

/// What `lemma_read_object_prefix` says, of what follows a tag.
pub proof fn lemma_read_payload_prefix(
    a: Seq<u8>,
    b: Seq<u8>,
    cfg: Config,
    ty: Type,
    st: State,
    depth: nat,
)
    requires
        0 <= st.pos,
        read_payload(a, cfg, ty, st, depth) matches Ok((_, after)) && agree_before(a, b, after.pos),
    ensures
        read_payload(b, cfg, ty, st, depth) == read_payload(a, cfg, ty, st, depth),
    decreases MAX_DEPTH - depth, 7nat, 0nat,
{
    let after = read_payload(a, cfg, ty, st, depth)->Ok_0.1;
    lemma_take_number_prefix(a, b, st);
    match ty {
        Type::Long => {
            lemma_read_pylong_prefix(a, b, st);
        },
        Type::Float => {
            lemma_take_float_text_prefix(a, b, cfg, st);
        },
        Type::Complex => {
            let (_, st1) = take_float_text(a, cfg, st)->Ok_0;
            lemma_agree_earlier(a, b, after.pos, st1.pos);
            lemma_take_float_text_prefix(a, b, cfg, st);
            lemma_take_float_text_prefix(a, b, cfg, st1);
        },
        Type::BinaryComplex => {
            let (_, st1) = take_u64(a, st)->Ok_0;
            lemma_agree_earlier(a, b, after.pos, st1.pos);
            lemma_take_number_prefix(a, b, st1);
        },
        Type::String | Type::AsciiInterned | Type::Ascii | Type::Interned | Type::Unicode => {
            let (n, st1) = take_u32(a, st)->Ok_0;
            lemma_agree_earlier(a, b, after.pos, st1.pos);
            lemma_take_bytes_prefix(a, b, st1, n as nat);
        },
        Type::ShortAsciiInterned | Type::ShortAscii => {
            let (n, st1) = take_u8(a, st)->Ok_0;
            lemma_agree_earlier(a, b, after.pos, st1.pos);
            lemma_take_bytes_prefix(a, b, st1, n as nat);
        },
        Type::SmallTuple => {
            let (n, st1) = take_u8(a, st)->Ok_0;
            lemma_read_items_extends(a, cfg, st1, depth, n as nat, Seq::empty());
            lemma_agree_earlier(a, b, after.pos, st1.pos);
            lemma_read_items_prefix(a, b, cfg, st1, depth, n as nat, Seq::empty());
        },
        Type::Tuple | Type::List => {
            let (n, st1) = take_u32(a, st)->Ok_0;
            lemma_read_items_extends(a, cfg, st1, depth, n as nat, Seq::empty());
            lemma_agree_earlier(a, b, after.pos, st1.pos);
            lemma_read_items_prefix(a, b, cfg, st1, depth, n as nat, Seq::empty());
        },
        Type::PySet | Type::FrozenSet => {
            let (n, st1) = take_u32(a, st)->Ok_0;
            lemma_read_keys_extends(a, cfg, st1, depth, n as nat, Seq::empty());
            lemma_agree_earlier(a, b, after.pos, st1.pos);
            lemma_read_keys_prefix(a, b, cfg, st1, depth, n as nat, Seq::empty());
        },
        Type::Dict => {
            lemma_read_pairs_prefix(a, b, cfg, st, depth, Seq::empty());
        },
        Type::Code => {
            lemma_read_code_prefix(a, b, cfg, st, depth);
        },
        _ => {},
    }
}

/// What `lemma_read_object_prefix` says, of a record that must be a value.
pub proof fn lemma_read_value_prefix(a: Seq<u8>, b: Seq<u8>, cfg: Config, st: State, depth: nat)
    requires
        0 <= st.pos,
        read_value(a, cfg, st, depth) matches Ok((_, after)) && agree_before(a, b, after.pos),
    ensures
        read_value(b, cfg, st, depth) == read_value(a, cfg, st, depth),
        read_bytes_field(b, cfg, st, depth) == read_bytes_field(a, cfg, st, depth),
        read_string_field(b, cfg, st, depth) == read_string_field(a, cfg, st, depth),
        read_tuple_field(b, cfg, st, depth) == read_tuple_field(a, cfg, st, depth),
        read_strings_field(b, cfg, st, depth) == read_strings_field(a, cfg, st, depth),
    decreases MAX_DEPTH - depth, 2nat, 0nat,
{
    lemma_read_object_prefix(a, b, cfg, st, depth);
}

/// What `lemma_read_object_prefix` says, of a run of values.
pub proof fn lemma_read_items_prefix(
    a: Seq<u8>,
    b: Seq<u8>,
    cfg: Config,
    st: State,
    depth: nat,
    n: nat,
    acc: Seq<Value>,
)
    requires
        0 <= st.pos,
        read_items(a, cfg, st, depth, n, acc) matches Ok((_, after)) && agree_before(a, b, after.pos),
    ensures
        read_items(b, cfg, st, depth, n, acc) == read_items(a, cfg, st, depth, n, acc),
    decreases MAX_DEPTH - depth, 3nat, n,
{
    if n > 0 {
        let after = read_items(a, cfg, st, depth, n, acc)->Ok_0.1;
        let (v, st1) = read_value(a, cfg, st, depth)->Ok_0;
        lemma_read_value_extends(a, cfg, st, depth);
        lemma_read_items_extends(a, cfg, st1, depth, (n - 1) as nat, acc.push(v));
        lemma_agree_earlier(a, b, after.pos, st1.pos);
        lemma_read_value_prefix(a, b, cfg, st, depth);
        lemma_read_items_prefix(a, b, cfg, st1, depth, (n - 1) as nat, acc.push(v));
    }
}

/// What `lemma_read_object_prefix` says, of the elements of a set.
pub proof fn lemma_read_keys_prefix(
    a: Seq<u8>,
    b: Seq<u8>,
    cfg: Config,
    st: State,
    depth: nat,
    n: nat,
    acc: Seq<Key>,
)
    requires
        0 <= st.pos,
        read_keys(a, cfg, st, depth, n, acc) matches Ok((_, after)) && agree_before(a, b, after.pos),
    ensures
        read_keys(b, cfg, st, depth, n, acc) == read_keys(a, cfg, st, depth, n, acc),
    decreases MAX_DEPTH - depth, 3nat, n,
{
    if n > 0 {
        let after = read_keys(a, cfg, st, depth, n, acc)->Ok_0.1;
        let (v, st1) = read_value(a, cfg, st, depth)->Ok_0;
        let k = to_key(v)->Ok_0;
        lemma_read_value_extends(a, cfg, st, depth);
        lemma_read_keys_extends(a, cfg, st1, depth, (n - 1) as nat, set_insert(acc, k));
        lemma_agree_earlier(a, b, after.pos, st1.pos);
        lemma_read_value_prefix(a, b, cfg, st, depth);
        lemma_read_keys_prefix(a, b, cfg, st1, depth, (n - 1) as nat, set_insert(acc, k));
    }
}

/// What `lemma_read_object_prefix` says, of the entries of a dictionary.
pub proof fn lemma_read_pairs_prefix(
    a: Seq<u8>,
    b: Seq<u8>,
    cfg: Config,
    st: State,
    depth: nat,
    acc: Seq<(Key, Value)>,
)
    requires
        0 <= st.pos,
        read_pairs(a, cfg, st, depth, acc) matches Ok((_, after)) && agree_before(a, b, after.pos),
    ensures
        read_pairs(b, cfg, st, depth, acc) == read_pairs(a, cfg, st, depth, acc),
    decreases MAX_DEPTH - depth, 3nat, a.len() - st.pos,
{
    let after = read_pairs(a, cfg, st, depth, acc)->Ok_0.1;
    lemma_read_object_extends(a, cfg, st, depth);
    match read_object(a, cfg, st, depth) {
        Ok((Some(key), st1)) => {
            lemma_read_object_extends(a, cfg, st1, depth);
            match read_object(a, cfg, st1, depth) {
                Ok((Some(value), st2)) => {
                    let k = to_key(key)->Ok_0;
                    lemma_read_pairs_extends(a, cfg, st2, depth, map_insert(acc, k, value));
                    lemma_agree_earlier(a, b, after.pos, st2.pos);
                    lemma_agree_earlier(a, b, after.pos, st1.pos);
                    lemma_read_object_prefix(a, b, cfg, st, depth);
                    lemma_read_object_prefix(a, b, cfg, st1, depth);
                    lemma_read_pairs_prefix(a, b, cfg, st2, depth, map_insert(acc, k, value));
                    assert(st2.pos <= b.len()) by {
                        reveal(agree_before);
                    }
                },
                Ok((None, st2)) => {
                    lemma_agree_earlier(a, b, after.pos, st1.pos);
                    lemma_read_object_prefix(a, b, cfg, st, depth);
                    lemma_read_object_prefix(a, b, cfg, st1, depth);
                },
                Err(_) => {},
            }
        },
        Ok((None, st1)) => {
            lemma_read_object_prefix(a, b, cfg, st, depth);
        },
        Err(_) => {},
    }
}

/// What `lemma_read_object_prefix` says, of the numbers at the start of a
/// code record.
pub proof fn lemma_read_code_head_prefix(a: Seq<u8>, b: Seq<u8>, cfg: Config, st: State)
    requires
        0 <= st.pos,
        read_code_head(a, cfg, st) matches Ok((_, after)) && agree_before(a, b, after.pos),
    ensures
        read_code_head(b, cfg, st) == read_code_head(a, cfg, st),
        read_code_head(a, cfg, st)->Ok_0.1.pos >= st.pos,
        read_code_head(a, cfg, st)->Ok_0.1.pos <= a.len(),
        read_code_head(a, cfg, st)->Ok_0.1.refs == st.refs,
{
    reveal(agree_before);
}

/// What `lemma_read_object_prefix` says, of the four tuples of names.
pub proof fn lemma_read_code_names_prefix(a: Seq<u8>, b: Seq<u8>, cfg: Config, st: State, depth: nat)
    requires
        0 <= st.pos,
        read_code_names(a, cfg, st, depth) matches Ok((_, after)) && agree_before(a, b, after.pos),
    ensures
        read_code_names(b, cfg, st, depth) == read_code_names(a, cfg, st, depth),
    decreases MAX_DEPTH - depth, 5nat, 0nat,
{
    let after = read_code_names(a, cfg, st, depth)->Ok_0.1;
    let (_, st1) = read_strings_field(a, cfg, st, depth)->Ok_0;
    let (_, st2) = read_strings_field(a, cfg, st1, depth)->Ok_0;
    let (_, st3) = read_strings_field(a, cfg, st2, depth)->Ok_0;
    lemma_read_value_extends(a, cfg, st, depth);
    lemma_read_value_extends(a, cfg, st1, depth);
    lemma_read_value_extends(a, cfg, st2, depth);
    lemma_read_value_extends(a, cfg, st3, depth);
    lemma_agree_earlier(a, b, after.pos, st1.pos);
    lemma_agree_earlier(a, b, after.pos, st2.pos);
    lemma_agree_earlier(a, b, after.pos, st3.pos);
    lemma_read_value_prefix(a, b, cfg, st, depth);
    lemma_read_value_prefix(a, b, cfg, st1, depth);
    lemma_read_value_prefix(a, b, cfg, st2, depth);
    lemma_read_value_prefix(a, b, cfg, st3, depth);
}

/// What `lemma_read_object_prefix` says, of a code record.
pub proof fn lemma_read_code_prefix(a: Seq<u8>, b: Seq<u8>, cfg: Config, st: State, depth: nat)
    requires
        0 <= st.pos,
        read_code(a, cfg, st, depth) matches Ok((_, after)) && agree_before(a, b, after.pos),
    ensures
        read_code(b, cfg, st, depth) == read_code(a, cfg, st, depth),
    decreases MAX_DEPTH - depth, 6nat, 0nat,
{
    let after = read_code(a, cfg, st, depth)->Ok_0.1;
    let (_, st1) = read_code_head(a, cfg, st)->Ok_0;
    let (_, st2) = read_bytes_field(a, cfg, st1, depth)->Ok_0;
    let (_, st3) = read_tuple_field(a, cfg, st2, depth)->Ok_0;
    let (_, st4) = read_code_names(a, cfg, st3, depth)->Ok_0;
    let (_, st5) = read_string_field(a, cfg, st4, depth)->Ok_0;
    let (_, st6) = read_string_field(a, cfg, st5, depth)->Ok_0;
    let (_, st7) = take_u32(a, st6)->Ok_0;
    assert(0 <= st1.pos <= a.len());
    lemma_read_value_extends(a, cfg, st1, depth);
    lemma_read_value_extends(a, cfg, st2, depth);
    lemma_read_code_names_extends(a, cfg, st3, depth);
    lemma_read_value_extends(a, cfg, st4, depth);
    lemma_read_value_extends(a, cfg, st5, depth);
    lemma_read_value_extends(a, cfg, st7, depth);
    lemma_agree_earlier(a, b, after.pos, st1.pos);
    lemma_agree_earlier(a, b, after.pos, st2.pos);
    lemma_agree_earlier(a, b, after.pos, st3.pos);
    lemma_agree_earlier(a, b, after.pos, st4.pos);
    lemma_agree_earlier(a, b, after.pos, st5.pos);
    lemma_agree_earlier(a, b, after.pos, st6.pos);
    lemma_agree_earlier(a, b, after.pos, st7.pos);
    lemma_read_code_head_prefix(a, b, cfg, st);
    lemma_read_value_prefix(a, b, cfg, st1, depth);
    lemma_read_value_prefix(a, b, cfg, st2, depth);
    lemma_read_code_names_prefix(a, b, cfg, st3, depth);
    lemma_read_value_prefix(a, b, cfg, st4, depth);
    lemma_read_value_prefix(a, b, cfg, st5, depth);
    lemma_take_number_prefix(a, b, st6);
    lemma_read_value_prefix(a, b, cfg, st7, depth);
}

/// Bytes denote what their first record denotes: where some bytes denote a
/// value, every run of bytes that begins with the bytes of that record
/// denotes the same value.
pub proof fn lemma_decode_prefix(a: Seq<u8>, b: Seq<u8>, cfg: Config)
    requires
        read_value(a, cfg, State { pos: 0, refs: Seq::empty() }, 0) matches Ok((_, after)) && agree_before(
            a,
            b,
            after.pos,
        ),
    ensures
        decode(b, cfg) == decode(a, cfg),
{
    lemma_read_value_prefix(a, b, cfg, State { pos: 0, refs: Seq::empty() }, 0);
}

} // verus!
