//! What holds of every read.
use vstd::prelude::*;
use crate::depth::MAX_DEPTH;
use crate::read::errors::ErrorValue;
use crate::read::model::{
    all_strings, decode, is_singleton, le_u32, publish, read_bytes_field, read_code,
    read_code_head, read_code_names, read_digits, read_items, read_keys, read_object, read_pairs,
    read_payload, read_string_field, read_strings_field, read_tagged, read_tuple_field, read_value,
    reserve, take_u32, Config, State,
};
use crate::read::types::{reserves_slot, type_of_code, Type, FLAG_REF};
use crate::value::Value;

verus! {

/// Decoding is a function: the same bytes, read with the same options and
/// with readers of decimal texts that agree on every text, denote the same
/// value or the same failure.
pub proof fn lemma_decode_deterministic(bytes1: Seq<u8>, cfg1: Config, bytes2: Seq<u8>, cfg2: Config)
    requires
        bytes1 == bytes2,
        cfg1.has_posonlyargcount == cfg2.has_posonlyargcount,
        forall|text: Seq<char>| #[trigger] (cfg1.floats)(text) == (cfg2.floats)(text),
    ensures
        decode(bytes1, cfg1) == decode(bytes2, cfg2),
{
    assert(cfg1.floats =~= cfg2.floats);
}

/// No record is read with `MAX_DEPTH` records or more open around it: a
/// record that was read stood at most `MAX_DEPTH` deep, itself counted.
pub proof fn lemma_depth_bounded(bytes: Seq<u8>, cfg: Config, st: State, depth: nat)
    requires
        read_object(bytes, cfg, st, depth) is Ok,
    ensures
        depth + 1 <= MAX_DEPTH,
{
}

/// A reference that was read names a place among the kept values that is
/// filled, and reads as the value there; the kept values stay as they are.
pub proof fn lemma_reference_resolves(bytes: Seq<u8>, cfg: Config, st: State, depth: nat)
    requires
        read_payload(bytes, cfg, Type::Ref, st, depth) is Ok,
    ensures
        ({
            let index = le_u32(bytes, st.pos);
            let (v, after) = read_payload(bytes, cfg, Type::Ref, st, depth)->Ok_0;
            &&& 0 <= index < st.refs.len()
            &&& !(st.refs[index] is PyNone)
            &&& v == Some(st.refs[index])
            &&& after.refs == st.refs
        }),
{
}

/// The reference flag changes nothing but the kept values: a record read
/// with the flag is the same record read without it, from the kept values
/// among which its place is taken. Both fail alike, or give the same value
/// and stop at the same byte; with the flag the value is kept as well.
pub proof fn lemma_flag_keeps_value(bytes: Seq<u8>, cfg: Config, code: u8, st: State, depth: nat)
    requires
        code & FLAG_REF == 0,
    ensures
        match type_of_code(code) {
            Some(ty) => {
                let slot = st.refs.len() as int;
                let taken = State { pos: st.pos, refs: reserve(st.refs, ty, true) };
                match read_tagged(bytes, cfg, code, taken, depth) {
                    Ok((v, after)) => read_tagged(bytes, cfg, code | FLAG_REF, st, depth) == Ok::<
                        (Option<Value>, State),
                        ErrorValue,
                    >((v, State { pos: after.pos, refs: publish(after.refs, v, ty, true, slot) })),
                    Err(e) => read_tagged(bytes, cfg, code | FLAG_REF, st, depth) == Err::<
                        (Option<Value>, State),
                        ErrorValue,
                    >(e),
                }
            },
            None => read_tagged(bytes, cfg, code | FLAG_REF, st, depth) == read_tagged(
                bytes,
                cfg,
                code,
                st,
                depth,
            ),
        },
{
    assert((code | 0x80) & 0x80 != 0) by (bit_vector);
    assert((code | 0x80) & !0x80u8 == code && code & !0x80u8 == code) by (bit_vector)
        requires
            code & 0x80 == 0,
    ;
}

/// For a record that takes no place before its parts are read, the flag
/// does not change what is read at all: the same value from the same kept
/// values, which the flag then adds to them unless it is a singleton.
pub proof fn lemma_flag_on_leaf(bytes: Seq<u8>, cfg: Config, code: u8, st: State, depth: nat)
    requires
        code & FLAG_REF == 0,
        type_of_code(code) matches Some(ty) && !reserves_slot(ty),
    ensures
        match read_tagged(bytes, cfg, code, st, depth) {
            Ok((v, after)) => read_tagged(bytes, cfg, code | FLAG_REF, st, depth) == Ok::<
                (Option<Value>, State),
                ErrorValue,
            >(
                (
                    v,
                    State {
                        pos: after.pos,
                        refs: if v is Some && !is_singleton(v->Some_0) {
                            after.refs.push(v->Some_0)
                        } else {
                            after.refs
                        },
                    },
                ),
            ),
            Err(e) => read_tagged(bytes, cfg, code | FLAG_REF, st, depth) == Err::<
                (Option<Value>, State),
                ErrorValue,
            >(e),
        },
{
    lemma_flag_keeps_value(bytes, cfg, code, st, depth);
    let ty = type_of_code(code)->Some_0;
    assert(State { pos: st.pos, refs: reserve(st.refs, ty, true) } == st);
}

/// The names of a code object are texts: a tuple is taken for them only
/// where each of its elements is a text, and then they are those texts in
/// their order; otherwise the first element that is no text is refused.
pub proof fn lemma_all_strings(items: Seq<Value>)
    ensures
        match all_strings(items) {
            Ok(texts) => {
                &&& texts.len() == items.len()
                &&& forall|i: int| 0 <= i < items.len() ==> #[trigger] items[i] == Value::String(texts[i])
            },
            Err(v) => exists|i: int|
                {
                    &&& 0 <= i < items.len()
                    &&& #[trigger] items[i] == v
                    &&& !(v is String)
                    &&& forall|j: int| 0 <= j < i ==> #[trigger] items[j] is String
                },
        },
    decreases items.len(),
{
    if items.len() > 0 {
        let front = items.drop_last();
        lemma_all_strings(front);
        match all_strings(front) {
            Ok(texts) => {
                assert forall|j: int| 0 <= j < front.len() implies #[trigger] items[j] is String by {
                    assert(front[j] == Value::String(texts[j]));
                }
                match items.last() {
                    Value::String(text) => {
                        let all = texts.push(text);
                        assert forall|i: int| 0 <= i < items.len() implies #[trigger] items[i]
                            == Value::String(all[i]) by {
                            if i < front.len() {
                                assert(front[i] == Value::String(texts[i]));
                            }
                        }
                    },
                    v => {
                        assert(items[items.len() - 1] == v);
                    },
                }
            },
            Err(v) => {
                let i = choose|i: int|
                    {
                        &&& 0 <= i < front.len()
                        &&& #[trigger] front[i] == v
                        &&& !(v is String)
                        &&& forall|j: int| 0 <= j < i ==> #[trigger] front[j] is String
                    };
                assert(items[i] == v);
                assert forall|j: int| 0 <= j < i implies #[trigger] items[j] is String by {
                    assert(front[j] is String);
                }
            },
        }
    }
}

/// Whether `after` is `before` after some reading: the cursor moved on
/// within the bytes, every value that was kept is still kept unchanged, and
/// every place that was added is filled.
pub open spec fn extends(bytes: Seq<u8>, before: State, after: State) -> bool {
    &&& 0 <= before.pos <= after.pos <= bytes.len()
    &&& before.refs.len() <= after.refs.len()
    &&& forall|i: int| 0 <= i < before.refs.len() ==> #[trigger] after.refs[i] == before.refs[i]
    &&& forall|i: int| before.refs.len() <= i < after.refs.len() ==> !(#[trigger] after.refs[i] is PyNone)
}

/// Reading on from what was read extends what was there at first.
pub proof fn lemma_extends_transitive(bytes: Seq<u8>, a: State, b: State, c: State)
    requires
        extends(bytes, a, b),
        extends(bytes, b, c),
    ensures
        extends(bytes, a, c),
{
    assert forall|i: int| 0 <= i < a.refs.len() implies #[trigger] c.refs[i] == a.refs[i] by {
        assert(b.refs[i] == a.refs[i]);
    }
    assert forall|i: int| a.refs.len() <= i < c.refs.len() implies !(#[trigger] c.refs[i] is PyNone) by {
        if i < b.refs.len() {
            assert(!(b.refs[i] is PyNone));
        }
    }
}

/// Digits are read without a change to the kept values.
proof fn lemma_read_digits_extends(bytes: Seq<u8>, st: State, count: nat, acc: Seq<u16>)
    requires
        0 <= st.pos <= bytes.len(),
    ensures
        read_digits(bytes, st, count, acc) matches Ok((_, after)) ==> after.refs == st.refs && st.pos
            <= after.pos <= bytes.len(),
    decreases count,
{
    if count > 0 {
        match crate::read::model::take_u16(bytes, st) {
            Ok((d, st1)) => {
                if d < 0x8000 {
                    lemma_read_digits_extends(bytes, st1, (count - 1) as nat, acc.push(d));
                }
            },
            Err(_) => {},
        }
    }
}

/// A record that was read consumed its tag at least, changed no value
/// that was kept before, and left every place that it added filled.
pub proof fn lemma_read_object_extends(bytes: Seq<u8>, cfg: Config, st: State, depth: nat)
    requires
        0 <= st.pos,
    ensures
        read_object(bytes, cfg, st, depth) matches Ok((_, after)) ==> extends(bytes, st, after) && st.pos
            < after.pos,
    decreases MAX_DEPTH - depth, 1nat, 0nat,
{
    match crate::read::model::take_u8(bytes, st) {
        Ok((code, st1)) => {
            lemma_read_tagged_extends(bytes, cfg, code, st1, depth);
            if read_tagged(bytes, cfg, code, st1, depth) is Ok {
                let after = read_tagged(bytes, cfg, code, st1, depth)->Ok_0.1;
                assert(extends(bytes, st, st1));
                lemma_extends_transitive(bytes, st, st1, after);
            }
        },
        Err(_) => {},
    }
}

/// What `lemma_read_object_extends` says, of a record behind its tag.
pub proof fn lemma_read_tagged_extends(bytes: Seq<u8>, cfg: Config, code: u8, st: State, depth: nat)
    requires
        0 <= st.pos <= bytes.len(),
    ensures
        read_tagged(bytes, cfg, code, st, depth) matches Ok((_, after)) ==> extends(bytes, st, after),
    decreases MAX_DEPTH - depth, 0nat, 0nat,
{
    if depth < MAX_DEPTH {
        let flag = code & FLAG_REF != 0;
        match type_of_code(code & !FLAG_REF) {
            Some(ty) => {
                let slot = st.refs.len() as int;
                let reserved = State { pos: st.pos, refs: reserve(st.refs, ty, flag) };
                lemma_read_payload_extends(bytes, cfg, ty, reserved, depth + 1);
                match read_payload(bytes, cfg, ty, reserved, depth + 1) {
                    Ok((v, st1)) => {
                        let after = State { pos: st1.pos, refs: publish(st1.refs, v, ty, flag, slot) };
                        assert forall|i: int| 0 <= i < st.refs.len() implies #[trigger] after.refs[i]
                            == st.refs[i] by {
                            assert(st1.refs[i] == reserved.refs[i]);
                        }
                        assert forall|i: int| st.refs.len() <= i < after.refs.len() implies !(
                        #[trigger] after.refs[i] is PyNone) by {
                            if i < st1.refs.len() && i >= reserved.refs.len() {
                                assert(!(st1.refs[i] is PyNone));
                            }
                        }
                    },
                    Err(_) => {},
                }
            },
            None => {},
        }
    }
}

/// What `lemma_read_object_extends` says, of what follows a tag; and a
/// record that takes a place before its parts are read is no singleton.
pub proof fn lemma_read_payload_extends(bytes: Seq<u8>, cfg: Config, ty: Type, st: State, depth: nat)
    requires
        0 <= st.pos <= bytes.len(),
    ensures
        read_payload(bytes, cfg, ty, st, depth) matches Ok((v, after)) ==> {
            &&& extends(bytes, st, after)
            &&& reserves_slot(ty) ==> v is Some && !is_singleton(v->Some_0)
        },
    decreases MAX_DEPTH - depth, 7nat, 0nat,
{
    match ty {
        Type::Long => {
            match take_u32(bytes, st) {
                Ok((raw, st1)) => {
                    let n = crate::read::model::signed32(raw as int);
                    let size = if n < 0 {
                        -n
                    } else {
                        n
                    };
                    lemma_read_digits_extends(bytes, st1, size as nat, Seq::empty());
                },
                Err(_) => {},
            }
        },
        Type::SmallTuple => {
            match crate::read::model::take_u8(bytes, st) {
                Ok((n, st1)) => {
                    lemma_read_items_extends(bytes, cfg, st1, depth, n as nat, Seq::empty());
                    if read_items(bytes, cfg, st1, depth, n as nat, Seq::empty()) is Ok {
                        let after = read_items(bytes, cfg, st1, depth, n as nat, Seq::empty())->Ok_0.1;
                        lemma_extends_transitive(bytes, st, st1, after);
                    }
                },
                Err(_) => {},
            }
        },
        Type::Tuple | Type::List => {
            match take_u32(bytes, st) {
                Ok((n, st1)) => {
                    lemma_read_items_extends(bytes, cfg, st1, depth, n as nat, Seq::empty());
                    if read_items(bytes, cfg, st1, depth, n as nat, Seq::empty()) is Ok {
                        let after = read_items(bytes, cfg, st1, depth, n as nat, Seq::empty())->Ok_0.1;
                        lemma_extends_transitive(bytes, st, st1, after);
                    }
                },
                Err(_) => {},
            }
        },
        Type::PySet | Type::FrozenSet => {
            match take_u32(bytes, st) {
                Ok((n, st1)) => {
                    lemma_read_keys_extends(bytes, cfg, st1, depth, n as nat, Seq::empty());
                    if read_keys(bytes, cfg, st1, depth, n as nat, Seq::empty()) is Ok {
                        let after = read_keys(bytes, cfg, st1, depth, n as nat, Seq::empty())->Ok_0.1;
                        lemma_extends_transitive(bytes, st, st1, after);
                    }
                },
                Err(_) => {},
            }
        },
        Type::Dict => {
            lemma_read_pairs_extends(bytes, cfg, st, depth, Seq::empty());
        },
        Type::Code => {
            lemma_read_code_extends(bytes, cfg, st, depth);
        },
        _ => {},
    }
}

/// What `lemma_read_object_extends` says, of a record that must be a value.
pub proof fn lemma_read_value_extends(bytes: Seq<u8>, cfg: Config, st: State, depth: nat)
    requires
        0 <= st.pos,
    ensures
        read_value(bytes, cfg, st, depth) matches Ok((_, after)) ==> extends(bytes, st, after) && st.pos
            < after.pos,
    decreases MAX_DEPTH - depth, 2nat, 0nat,
{
    lemma_read_object_extends(bytes, cfg, st, depth);
}

/// What `lemma_read_object_extends` says, of a run of values.
pub proof fn lemma_read_items_extends(
    bytes: Seq<u8>,
    cfg: Config,
    st: State,
    depth: nat,
    n: nat,
    acc: Seq<Value>,
)
    requires
        0 <= st.pos <= bytes.len(),
    ensures
        read_items(bytes, cfg, st, depth, n, acc) matches Ok((_, after)) ==> extends(bytes, st, after),
    decreases MAX_DEPTH - depth, 3nat, n,
{
    if n > 0 {
        lemma_read_value_extends(bytes, cfg, st, depth);
        match read_value(bytes, cfg, st, depth) {
            Ok((v, st1)) => {
                lemma_read_items_extends(bytes, cfg, st1, depth, (n - 1) as nat, acc.push(v));
                if read_items(bytes, cfg, st, depth, n, acc) is Ok {
                    let after = read_items(bytes, cfg, st, depth, n, acc)->Ok_0.1;
                    lemma_extends_transitive(bytes, st, st1, after);
                }
            },
            Err(_) => {},
        }
    }
}

/// What `lemma_read_object_extends` says, of the elements of a set.
pub proof fn lemma_read_keys_extends(
    bytes: Seq<u8>,
    cfg: Config,
    st: State,
    depth: nat,
    n: nat,
    acc: Seq<crate::value::Key>,
)
    requires
        0 <= st.pos <= bytes.len(),
    ensures
        read_keys(bytes, cfg, st, depth, n, acc) matches Ok((_, after)) ==> extends(bytes, st, after),
    decreases MAX_DEPTH - depth, 3nat, n,
{
    if n > 0 {
        lemma_read_value_extends(bytes, cfg, st, depth);
        match read_value(bytes, cfg, st, depth) {
            Ok((v, st1)) => {
                match crate::value::to_key(v) {
                    Ok(k) => {
                        lemma_read_keys_extends(
                            bytes,
                            cfg,
                            st1,
                            depth,
                            (n - 1) as nat,
                            crate::value::set_insert(acc, k),
                        );
                        if read_keys(bytes, cfg, st, depth, n, acc) is Ok {
                            let after = read_keys(bytes, cfg, st, depth, n, acc)->Ok_0.1;
                            lemma_extends_transitive(bytes, st, st1, after);
                        }
                    },
                    Err(_) => {},
                }
            },
            Err(_) => {},
        }
    }
}

/// What `lemma_read_object_extends` says, of the entries of a dictionary.
pub proof fn lemma_read_pairs_extends(
    bytes: Seq<u8>,
    cfg: Config,
    st: State,
    depth: nat,
    acc: Seq<(crate::value::Key, Value)>,
)
    requires
        0 <= st.pos <= bytes.len(),
    ensures
        read_pairs(bytes, cfg, st, depth, acc) matches Ok((_, after)) ==> extends(bytes, st, after),
    decreases MAX_DEPTH - depth, 3nat, bytes.len() - st.pos,
{
    lemma_read_object_extends(bytes, cfg, st, depth);
    match read_object(bytes, cfg, st, depth) {
        Ok((Some(key), st1)) => {
            lemma_read_object_extends(bytes, cfg, st1, depth);
            match read_object(bytes, cfg, st1, depth) {
                Ok((Some(value), st2)) => {
                    lemma_extends_transitive(bytes, st, st1, st2);
                    match crate::value::to_key(key) {
                        Ok(k) => {
                            lemma_read_pairs_extends(
                                bytes,
                                cfg,
                                st2,
                                depth,
                                crate::value::map_insert(acc, k, value),
                            );
                            if read_pairs(bytes, cfg, st, depth, acc) is Ok {
                                let after = read_pairs(bytes, cfg, st, depth, acc)->Ok_0.1;
                                lemma_extends_transitive(bytes, st, st2, after);
                            }
                        },
                        Err(_) => {},
                    }
                },
                Ok((None, st2)) => {
                    lemma_extends_transitive(bytes, st, st1, st2);
                },
                Err(_) => {},
            }
        },
        _ => {},
    }
}

/// What `lemma_read_object_extends` says, of the four tuples of names.
pub proof fn lemma_read_code_names_extends(bytes: Seq<u8>, cfg: Config, st: State, depth: nat)
    requires
        0 <= st.pos <= bytes.len(),
    ensures
        read_code_names(bytes, cfg, st, depth) matches Ok((_, after)) ==> extends(bytes, st, after),
    decreases MAX_DEPTH - depth, 5nat, 0nat,
{
    lemma_read_value_extends(bytes, cfg, st, depth);
    match read_strings_field(bytes, cfg, st, depth) {
        Ok((_, st1)) => {
            lemma_read_value_extends(bytes, cfg, st1, depth);
            match read_strings_field(bytes, cfg, st1, depth) {
                Ok((_, st2)) => {
                    lemma_extends_transitive(bytes, st, st1, st2);
                    lemma_read_value_extends(bytes, cfg, st2, depth);
                    match read_strings_field(bytes, cfg, st2, depth) {
                        Ok((_, st3)) => {
                            lemma_extends_transitive(bytes, st, st2, st3);
                            lemma_read_value_extends(bytes, cfg, st3, depth);
                            match read_strings_field(bytes, cfg, st3, depth) {
                                Ok((_, st4)) => {
                                    lemma_extends_transitive(bytes, st, st3, st4);
                                },
                                Err(_) => {},
                            }
                        },
                        Err(_) => {},
                    }
                },
                Err(_) => {},
            }
        },
        Err(_) => {},
    }
}

/// What `lemma_read_object_extends` says, of a code record.
pub proof fn lemma_read_code_extends(bytes: Seq<u8>, cfg: Config, st: State, depth: nat)
    requires
        0 <= st.pos <= bytes.len(),
    ensures
        read_code(bytes, cfg, st, depth) matches Ok((_, after)) ==> extends(bytes, st, after),
    decreases MAX_DEPTH - depth, 6nat, 0nat,
{
    match read_code_head(bytes, cfg, st) {
        Ok((_, st1)) => {
            assert(extends(bytes, st, st1));
            lemma_read_value_extends(bytes, cfg, st1, depth);
            match read_bytes_field(bytes, cfg, st1, depth) {
                Ok((_, st2)) => {
                    lemma_extends_transitive(bytes, st, st1, st2);
                    lemma_read_value_extends(bytes, cfg, st2, depth);
                    match read_tuple_field(bytes, cfg, st2, depth) {
                        Ok((_, st3)) => {
                            lemma_extends_transitive(bytes, st, st2, st3);
                            lemma_read_code_names_extends(bytes, cfg, st3, depth);
                            match read_code_names(bytes, cfg, st3, depth) {
                                Ok((_, st4)) => {
                                    lemma_extends_transitive(bytes, st, st3, st4);
                                    lemma_read_value_extends(bytes, cfg, st4, depth);
                                    match read_string_field(bytes, cfg, st4, depth) {
                                        Ok((_, st5)) => {
                                            lemma_extends_transitive(bytes, st, st4, st5);
                                            lemma_read_value_extends(bytes, cfg, st5, depth);
                                            match read_string_field(bytes, cfg, st5, depth) {
                                                Ok((_, st6)) => {
                                                    lemma_extends_transitive(bytes, st, st5, st6);
                                                    match take_u32(bytes, st6) {
                                                        Ok((_, st7)) => {
                                                            assert(extends(bytes, st6, st7));
                                                            lemma_extends_transitive(bytes, st, st6, st7);
                                                            lemma_read_value_extends(bytes, cfg, st7, depth);
                                                            match read_bytes_field(bytes, cfg, st7, depth) {
                                                                Ok((_, st8)) => {
                                                                    lemma_extends_transitive(
                                                                        bytes,
                                                                        st,
                                                                        st7,
                                                                        st8,
                                                                    );
                                                                },
                                                                Err(_) => {},
                                                            }
                                                        },
                                                        Err(_) => {},
                                                    }
                                                },
                                                Err(_) => {},
                                            }
                                        },
                                        Err(_) => {},
                                    }
                                },
                                Err(_) => {},
                            }
                        },
                        Err(_) => {},
                    }
                },
                Err(_) => {},
            }
        },
        Err(_) => {},
    }
}

/// The bytes as a whole: where they denote a value, some of them were
/// consumed and every value that was kept on the way is filled.
pub proof fn lemma_decode_extends(bytes: Seq<u8>, cfg: Config)
    ensures
        read_value(bytes, cfg, State { pos: 0, refs: Seq::empty() }, 0) matches Ok((_, after)) ==> {
            &&& 0 < after.pos <= bytes.len()
            &&& forall|i: int| 0 <= i < after.refs.len() ==> !(#[trigger] after.refs[i] is PyNone)
        },
{
    lemma_read_value_extends(bytes, cfg, State { pos: 0, refs: Seq::empty() }, 0);
}

} // verus!
