//! Every value that is read is well formed: no set in it holds two equal
//! elements and no dictionary two equal keys.
use vstd::prelude::*;
use crate::depth::MAX_DEPTH;
use crate::key_laws::{
    key_wf, keys_wf, lemma_map_insert_keeps_apart, lemma_set_insert_keeps_apart, no_equal_pair,
};
use crate::read::laws::{
    lemma_read_code_names_extends, lemma_read_object_extends, lemma_read_payload_extends,
    lemma_read_value_extends,
};
use crate::read::model::{
    decode, publish, read_bytes_field, read_code, read_code_head, read_code_names, read_items,
    read_keys, read_object, read_pairs, read_payload, read_string_field, read_strings_field,
    read_tagged, read_tuple_field, read_value, reserve, take_u32, take_u8, Config, State,
};
use crate::read::types::{type_of_code, Type, FLAG_REF};
use crate::value::{
    contains_key, entry_keys, first_match, lemma_contains_key, map_insert, set_insert, to_key,
    to_keys, Key, Value,
};

verus! {

/// Whether a value is well formed: no set in it holds two equal elements,
/// no dictionary two equal keys, and no key a frozen set that does.
pub open spec fn value_wf(v: Value) -> bool
    decreases v,
{
    match v {
        Value::Tuple(items) => forall|i: int| 0 <= i < items.len() ==> value_wf(#[trigger] items[i]),
        Value::List(items) => forall|i: int| 0 <= i < items.len() ==> value_wf(#[trigger] items[i]),
        Value::Dict(entries) => {
            &&& no_equal_pair(entry_keys(entries))
            &&& forall|i: int|
                0 <= i < entries.len() ==> key_wf((#[trigger] entries[i]).0) && value_wf(entries[i].1)
        },
        Value::PySet(keys) => no_equal_pair(keys) && keys_wf(keys),
        Value::FrozenSet(keys) => no_equal_pair(keys) && keys_wf(keys),
        Value::Code(code) => forall|i: int|
            0 <= i < code.consts.len() ==> value_wf(#[trigger] code.consts[i]),
        _ => true,
    }
}

/// Whether every value is well formed.
pub open spec fn values_wf(values: Seq<Value>) -> bool {
    forall|i: int| 0 <= i < values.len() ==> value_wf(#[trigger] values[i])
}

/// Whether the entries of a dictionary are well formed and no two of
/// their keys are equal.
pub open spec fn entries_wf(entries: Seq<(Key, Value)>) -> bool {
    &&& no_equal_pair(entry_keys(entries))
    &&& forall|i: int| 0 <= i < entries.len() ==> key_wf((#[trigger] entries[i]).0) && value_wf(entries[i].1)
}

/// The keys that values are made into stand where the values stood.
pub proof fn lemma_to_keys_each(values: Seq<Value>)
    ensures
        to_keys(values) matches Ok(keys) ==> {
            &&& keys.len() == values.len()
            &&& forall|i: int| 0 <= i < values.len() ==> to_key(#[trigger] values[i]) == Ok::<Key, Value>(keys[i])
        },
    decreases values.len(),
{
    if values.len() > 0 {
        let front = values.drop_last();
        lemma_to_keys_each(front);
        if to_keys(values) is Ok {
            let keys = to_keys(values)->Ok_0;
            let front_keys = to_keys(front)->Ok_0;
            assert forall|i: int| 0 <= i < values.len() implies to_key(#[trigger] values[i]) == Ok::<
                Key,
                Value,
            >(keys[i]) by {
                if i < front.len() {
                    assert(to_key(front[i]) == Ok::<Key, Value>(front_keys[i]));
                    assert(values[i] == front[i]);
                }
            }
        }
    }
}

/// The key that a well-formed value is made into is well formed.
pub proof fn lemma_to_key_wf(v: Value)
    requires
        value_wf(v),
    ensures
        to_key(v) matches Ok(k) ==> key_wf(k),
    decreases v,
{
    match v {
        Value::Tuple(items) => {
            lemma_to_keys_each(items);
            if to_keys(items) is Ok {
                let keys = to_keys(items)->Ok_0;
                assert forall|i: int| 0 <= i < keys.len() implies key_wf(#[trigger] keys[i]) by {
                    assert(value_wf(items[i]));
                    lemma_to_key_wf(items[i]);
                }
            }
        },
        _ => {},
    }
}

/// A well-formed set stays so when a well-formed key is put in.
pub proof fn lemma_set_insert_wf(keys: Seq<Key>, k: Key)
    requires
        no_equal_pair(keys),
        keys_wf(keys),
        key_wf(k),
    ensures
        no_equal_pair(set_insert(keys, k)),
        keys_wf(set_insert(keys, k)),
{
    lemma_set_insert_keeps_apart(keys, k);
}

/// A well-formed dictionary stays so when a well-formed entry is put in.
pub proof fn lemma_map_insert_wf(entries: Seq<(Key, Value)>, k: Key, v: Value)
    requires
        entries_wf(entries),
        key_wf(k),
        value_wf(v),
    ensures
        entries_wf(map_insert(entries, k, v)),
{
    lemma_map_insert_keeps_apart(entries, k, v);
    let keys = entry_keys(entries);
    let after = map_insert(entries, k, v);
    if contains_key(keys, k) {
        lemma_contains_key(keys, k);
        let j = choose|j: int| 0 <= j < keys.len() && crate::value::key_eq(k, #[trigger] keys[j]);
        crate::key_laws::lemma_first_match_exists(keys, k, j);
        let i = choose|i: int| first_match(keys, k, i);
        assert forall|m: int| 0 <= m < after.len() implies key_wf((#[trigger] after[m]).0) && value_wf(
            after[m].1,
        ) by {
            if m != i {
                assert(after[m] == entries[m]);
            } else {
                assert(key_wf(entries[i].0));
            }
        }
    } else {
        assert forall|m: int| 0 <= m < after.len() implies key_wf((#[trigger] after[m]).0) && value_wf(
            after[m].1,
        ) by {
            if m < entries.len() {
                assert(after[m] == entries[m]);
            }
        }
    }
}

/// A record that was read is well formed, and so are the kept values
/// after it, where those before it were.
pub proof fn lemma_read_object_wf(bytes: Seq<u8>, cfg: Config, st: State, depth: nat)
    requires
        0 <= st.pos <= bytes.len(),
        values_wf(st.refs),
    ensures
        read_object(bytes, cfg, st, depth) matches Ok((v, after)) ==> values_wf(after.refs) && (v matches Some(
            x,
        ) ==> value_wf(x)),
    decreases MAX_DEPTH - depth, 1nat, 0nat,
{
    match take_u8(bytes, st) {
        Ok((code, st1)) => {
            lemma_read_tagged_wf(bytes, cfg, code, st1, depth);
        },
        Err(_) => {},
    }
}

/// What `lemma_read_object_wf` says, of a record behind its tag.
pub proof fn lemma_read_tagged_wf(bytes: Seq<u8>, cfg: Config, code: u8, st: State, depth: nat)
    requires
        0 <= st.pos <= bytes.len(),
        values_wf(st.refs),
    ensures
        read_tagged(bytes, cfg, code, st, depth) matches Ok((v, after)) ==> values_wf(after.refs) && (v matches Some(
            x,
        ) ==> value_wf(x)),
    decreases MAX_DEPTH - depth, 0nat, 0nat,
{
    if depth < MAX_DEPTH {
        let flag = code & FLAG_REF != 0;
        match type_of_code(code & !FLAG_REF) {
            Some(ty) => {
                let slot = st.refs.len() as int;
                let reserved = State { pos: st.pos, refs: reserve(st.refs, ty, flag) };
                assert(values_wf(reserved.refs)) by {
                    assert forall|i: int| 0 <= i < reserved.refs.len() implies value_wf(
                        #[trigger] reserved.refs[i],
                    ) by {
                        if i < st.refs.len() {
                            assert(value_wf(st.refs[i]));
                        } else {
                            assert(entry_keys(Seq::<(Key, Value)>::empty()).len() == 0);
                        }
                    }
                }
                lemma_read_payload_wf(bytes, cfg, ty, reserved, depth + 1);
                lemma_read_payload_extends(bytes, cfg, ty, reserved, depth + 1);
                match read_payload(bytes, cfg, ty, reserved, depth + 1) {
                    Ok((v, st1)) => {
                        let after = publish(st1.refs, v, ty, flag, slot);
                        assert forall|i: int| 0 <= i < after.len() implies value_wf(#[trigger] after[i]) by {
                            if i < st1.refs.len() {
                                assert(value_wf(st1.refs[i]));
                            }
                            if v is Some {
                                assert(value_wf(v->Some_0));
                            }
                        }
                    },
                    Err(_) => {},
                }
            },
            None => {},
        }
    }
}

/// What `lemma_read_object_wf` says, of what follows a tag.
pub proof fn lemma_read_payload_wf(bytes: Seq<u8>, cfg: Config, ty: Type, st: State, depth: nat)
    requires
        0 <= st.pos <= bytes.len(),
        values_wf(st.refs),
    ensures
        read_payload(bytes, cfg, ty, st, depth) matches Ok((v, after)) ==> values_wf(after.refs) && (v matches Some(
            x,
        ) ==> value_wf(x)),
    decreases MAX_DEPTH - depth, 7nat, 0nat,
{
    match ty {
        Type::Long => {
            match take_u32(bytes, st) {
                Ok((raw, st1)) => {
                    let n = crate::read::model::signed32(raw as int);
                    let size = if n < 0 {
                        -n
                    } else {
                        n
                    };
                    lemma_read_digits_refs(bytes, st1, size as nat, Seq::empty());
                },
                Err(_) => {},
            }
        },
        Type::SmallTuple => {
            match take_u8(bytes, st) {
                Ok((n, st1)) => {
                    lemma_read_items_wf(bytes, cfg, st1, depth, n as nat, Seq::empty());
                },
                Err(_) => {},
            }
        },
        Type::Tuple | Type::List => {
            match take_u32(bytes, st) {
                Ok((n, st1)) => {
                    lemma_read_items_wf(bytes, cfg, st1, depth, n as nat, Seq::empty());
                },
                Err(_) => {},
            }
        },
        Type::PySet | Type::FrozenSet => {
            match take_u32(bytes, st) {
                Ok((n, st1)) => {
                    lemma_read_keys_wf(bytes, cfg, st1, depth, n as nat, Seq::empty());
                },
                Err(_) => {},
            }
        },
        Type::Dict => {
            assert(entry_keys(Seq::<(Key, Value)>::empty()).len() == 0);
            lemma_read_pairs_wf(bytes, cfg, st, depth, Seq::empty());
        },
        Type::Code => {
            lemma_read_code_wf(bytes, cfg, st, depth);
        },
        Type::Ref => {
            match take_u32(bytes, st) {
                Ok((n, st1)) => {
                    if n < st1.refs.len() {
                        assert(value_wf(st.refs[n as int]));
                    }
                },
                Err(_) => {},
            }
        },
        _ => {},
    }
}

/// Digits are read without a change to the kept values.
proof fn lemma_read_digits_refs(bytes: Seq<u8>, st: State, count: nat, acc: Seq<u16>)
    ensures
        crate::read::model::read_digits(bytes, st, count, acc) matches Ok((_, after)) ==> after.refs
            == st.refs,
    decreases count,
{
    if count > 0 {
        match crate::read::model::take_u16(bytes, st) {
            Ok((d, st1)) => {
                if d < 0x8000 {
                    lemma_read_digits_refs(bytes, st1, (count - 1) as nat, acc.push(d));
                }
            },
            Err(_) => {},
        }
    }
}

/// What `lemma_read_object_wf` says, of a record that must be a value.
pub proof fn lemma_read_value_wf(bytes: Seq<u8>, cfg: Config, st: State, depth: nat)
    requires
        0 <= st.pos <= bytes.len(),
        values_wf(st.refs),
    ensures
        read_value(bytes, cfg, st, depth) matches Ok((v, after)) ==> values_wf(after.refs) && value_wf(v),
    decreases MAX_DEPTH - depth, 2nat, 0nat,
{
    lemma_read_object_wf(bytes, cfg, st, depth);
}

/// What `lemma_read_object_wf` says, of a run of values.
pub proof fn lemma_read_items_wf(bytes: Seq<u8>, cfg: Config, st: State, depth: nat, n: nat, acc: Seq<Value>)
    requires
        0 <= st.pos <= bytes.len(),
        values_wf(st.refs),
        values_wf(acc),
    ensures
        read_items(bytes, cfg, st, depth, n, acc) matches Ok((items, after)) ==> values_wf(after.refs)
            && values_wf(items),
    decreases MAX_DEPTH - depth, 3nat, n,
{
    if n > 0 {
        lemma_read_value_wf(bytes, cfg, st, depth);
        lemma_read_value_extends(bytes, cfg, st, depth);
        match read_value(bytes, cfg, st, depth) {
            Ok((v, st1)) => {
                assert(values_wf(acc.push(v))) by {
                    assert forall|i: int| 0 <= i < acc.push(v).len() implies value_wf(
                        #[trigger] acc.push(v)[i],
                    ) by {
                        if i < acc.len() {
                            assert(value_wf(acc[i]));
                        }
                    }
                }
                lemma_read_items_wf(bytes, cfg, st1, depth, (n - 1) as nat, acc.push(v));
            },
            Err(_) => {},
        }
    }
}

/// What `lemma_read_object_wf` says, of the elements of a set.
pub proof fn lemma_read_keys_wf(bytes: Seq<u8>, cfg: Config, st: State, depth: nat, n: nat, acc: Seq<Key>)
    requires
        0 <= st.pos <= bytes.len(),
        values_wf(st.refs),
        no_equal_pair(acc),
        keys_wf(acc),
    ensures
        read_keys(bytes, cfg, st, depth, n, acc) matches Ok((keys, after)) ==> values_wf(after.refs)
            && no_equal_pair(keys) && keys_wf(keys),
    decreases MAX_DEPTH - depth, 3nat, n,
{
    if n > 0 {
        lemma_read_value_wf(bytes, cfg, st, depth);
        lemma_read_value_extends(bytes, cfg, st, depth);
        match read_value(bytes, cfg, st, depth) {
            Ok((v, st1)) => {
                lemma_to_key_wf(v);
                match to_key(v) {
                    Ok(k) => {
                        lemma_set_insert_wf(acc, k);
                        lemma_read_keys_wf(bytes, cfg, st1, depth, (n - 1) as nat, set_insert(acc, k));
                    },
                    Err(_) => {},
                }
            },
            Err(_) => {},
        }
    }
}

/// What `lemma_read_object_wf` says, of the entries of a dictionary.
pub proof fn lemma_read_pairs_wf(bytes: Seq<u8>, cfg: Config, st: State, depth: nat, acc: Seq<(Key, Value)>)
    requires
        0 <= st.pos <= bytes.len(),
        values_wf(st.refs),
        entries_wf(acc),
    ensures
        read_pairs(bytes, cfg, st, depth, acc) matches Ok((entries, after)) ==> values_wf(after.refs)
            && entries_wf(entries),
    decreases MAX_DEPTH - depth, 3nat, bytes.len() - st.pos,
{
    lemma_read_object_wf(bytes, cfg, st, depth);
    lemma_read_object_extends(bytes, cfg, st, depth);
    match read_object(bytes, cfg, st, depth) {
        Ok((Some(key), st1)) => {
            lemma_read_object_wf(bytes, cfg, st1, depth);
            lemma_read_object_extends(bytes, cfg, st1, depth);
            match read_object(bytes, cfg, st1, depth) {
                Ok((Some(value), st2)) => {
                    lemma_to_key_wf(key);
                    match to_key(key) {
                        Ok(k) => {
                            if st.pos < st2.pos <= bytes.len() {
                                lemma_map_insert_wf(acc, k, value);
                                lemma_read_pairs_wf(bytes, cfg, st2, depth, map_insert(acc, k, value));
                            }
                        },
                        Err(_) => {},
                    }
                },
                _ => {},
            }
        },
        _ => {},
    }
}

/// What `lemma_read_object_wf` says, of the four tuples of names.
pub proof fn lemma_read_code_names_wf(bytes: Seq<u8>, cfg: Config, st: State, depth: nat)
    requires
        0 <= st.pos <= bytes.len(),
        values_wf(st.refs),
    ensures
        read_code_names(bytes, cfg, st, depth) matches Ok((_, after)) ==> values_wf(after.refs),
    decreases MAX_DEPTH - depth, 5nat, 0nat,
{
    lemma_read_value_wf(bytes, cfg, st, depth);
    lemma_read_value_extends(bytes, cfg, st, depth);
    match read_strings_field(bytes, cfg, st, depth) {
        Ok((_, st1)) => {
            lemma_read_value_wf(bytes, cfg, st1, depth);
            lemma_read_value_extends(bytes, cfg, st1, depth);
            match read_strings_field(bytes, cfg, st1, depth) {
                Ok((_, st2)) => {
                    lemma_read_value_wf(bytes, cfg, st2, depth);
                    lemma_read_value_extends(bytes, cfg, st2, depth);
                    match read_strings_field(bytes, cfg, st2, depth) {
                        Ok((_, st3)) => {
                            lemma_read_value_wf(bytes, cfg, st3, depth);
                            lemma_read_value_extends(bytes, cfg, st3, depth);
                        },
                        Err(_) => {},
                    }
                },
                Err(_) => {},
            }
        },
        Err(_) => {},
    }
}

/// What `lemma_read_object_wf` says, of a code record.
pub proof fn lemma_read_code_wf(bytes: Seq<u8>, cfg: Config, st: State, depth: nat)
    requires
        0 <= st.pos <= bytes.len(),
        values_wf(st.refs),
    ensures
        read_code(bytes, cfg, st, depth) matches Ok((code, after)) ==> values_wf(after.refs) && values_wf(
            code.consts,
        ),
    decreases MAX_DEPTH - depth, 6nat, 0nat,
{
    match read_code_head(bytes, cfg, st) {
        Ok((_, st1)) => {
            lemma_read_value_wf(bytes, cfg, st1, depth);
            lemma_read_value_extends(bytes, cfg, st1, depth);
            match read_bytes_field(bytes, cfg, st1, depth) {
                Ok((_, st2)) => {
                    lemma_read_value_wf(bytes, cfg, st2, depth);
                    lemma_read_value_extends(bytes, cfg, st2, depth);
                    match read_tuple_field(bytes, cfg, st2, depth) {
                        Ok((consts, st3)) => {
                            lemma_read_code_names_wf(bytes, cfg, st3, depth);
                            lemma_read_code_names_extends(bytes, cfg, st3, depth);
                            match read_code_names(bytes, cfg, st3, depth) {
                                Ok((_, st4)) => {
                                    lemma_read_value_wf(bytes, cfg, st4, depth);
                                    lemma_read_value_extends(bytes, cfg, st4, depth);
                                    match read_string_field(bytes, cfg, st4, depth) {
                                        Ok((_, st5)) => {
                                            lemma_read_value_wf(bytes, cfg, st5, depth);
                                            lemma_read_value_extends(bytes, cfg, st5, depth);
                                            match read_string_field(bytes, cfg, st5, depth) {
                                                Ok((_, st6)) => {
                                                    match take_u32(bytes, st6) {
                                                        Ok((_, st7)) => {
                                                            lemma_read_value_wf(bytes, cfg, st7, depth);
                                                            lemma_read_value_extends(bytes, cfg, st7, depth);
                                                        },
                                                        Err(_) => {},
                                                    }
                                                },
                                                Err(_) => {},
                                            }
                                        },
                                        Err(_) => {},
                                    }
                                },
                                Err(_) => {},
                            }
                        },
                        Err(_) => {},
                    }
                },
                Err(_) => {},
            }
        },
        Err(_) => {},
    }
}

/// The value that bytes denote is well formed: every key of a dictionary
/// and every element of a set in it is well formed, and is the only one
/// there among its equals.
pub proof fn lemma_decode_wf(bytes: Seq<u8>, cfg: Config)
    ensures
        decode(bytes, cfg) matches Ok(v) ==> value_wf(v),
{
    lemma_read_value_wf(bytes, cfg, State { pos: 0, refs: Seq::empty() }, 0);
}

} // verus!
