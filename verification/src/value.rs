//! The mathematical model of the values that a stream denotes, and of the
//! rules by which keys of dictionaries and elements of sets are told apart.
use vstd::prelude::*;

verus! {

/// A complex number as the bit patterns of its two IEEE-754 binary64 parts.
#[derive(Clone, Copy, Debug, PartialEq, Eq, Structural)]
pub struct ComplexBits {
    pub re: u64,
    pub im: u64,
}

/// A value that may be a dictionary key or a set element.
/// Floating-point numbers are IEEE-754 binary64 bit patterns.
pub enum Key {
    PyNone,
    StopIteration,
    Ellipsis,
    Bool(bool),
    Long(int),
    Float(u64),
    Complex(ComplexBits),
    String(Seq<char>),
    Tuple(Seq<Key>),
    FrozenSet(Seq<Key>),
}

/// A code object.
pub struct CodeValue {
    pub argcount: u32,
    pub posonlyargcount: u32,
    pub kwonlyargcount: u32,
    pub nlocals: u32,
    pub stacksize: u32,
    pub flags: u32,
    pub code: Seq<u8>,
    pub consts: Seq<Value>,
    pub names: Seq<Seq<char>>,
    pub varnames: Seq<Seq<char>>,
    pub freevars: Seq<Seq<char>>,
    pub cellvars: Seq<Seq<char>>,
    pub filename: Seq<char>,
    pub name: Seq<char>,
    pub firstlineno: u32,
    pub lnotab: Seq<u8>,
}

/// Any value. A dictionary is the sequence of its entries and a set the
/// sequence of its elements, each in the order of first insertion.
pub enum Value {
    PyNone,
    StopIteration,
    Ellipsis,
    Bool(bool),
    Long(int),
    Float(u64),
    Complex(ComplexBits),
    Bytes(Seq<u8>),
    String(Seq<char>),
    Tuple(Seq<Value>),
    List(Seq<Value>),
    Dict(Seq<(Key, Value)>),
    PySet(Seq<Key>),
    FrozenSet(Seq<Key>),
    Code(CodeValue),
}

/// Whether a binary64 bit pattern is a NaN.
pub open spec fn float_is_nan(bits: u64) -> bool {
    (bits & 0x7fff_ffff_ffff_ffff) > 0x7ff0_0000_0000_0000
}

/// Whether a binary64 bit pattern is +0.0 or -0.0.
pub open spec fn float_is_zero(bits: u64) -> bool {
    (bits & 0x7fff_ffff_ffff_ffff) == 0
}

/// Equality of floating-point keys: any two NaNs are equal, the two zeros are
/// equal, and every other number is equal to itself alone.
pub open spec fn float_eq(a: u64, b: u64) -> bool {
    ||| a == b
    ||| float_is_nan(a) && float_is_nan(b)
    ||| float_is_zero(a) && float_is_zero(b)
}

/// What every NaN hashes to.
pub const NAN_HASH: u64 = 0x7ff8_0000_0000_0000;

/// The hash of a floating-point key: one value for all NaNs, one for both
/// zeros, the bit pattern for the rest.
pub open spec fn float_hash(bits: u64) -> u64 {
    if float_is_nan(bits) {
        NAN_HASH
    } else if float_is_zero(bits) {
        0
    } else {
        bits
    }
}

/// Two hashes made into one.
pub open spec fn mix(a: u64, b: u64) -> u64 {
    a.wrapping_mul(31).wrapping_add(b)
}

/// The hash of an integer key: from its sign and the low 32 bits of its
/// magnitude.
pub open spec fn long_hash(x: int) -> u64 {
    let magnitude = if x < 0 {
        -x
    } else {
        x
    };
    ((magnitude % 0x1_0000_0000) * 2 + (if x < 0 {
        1int
    } else {
        0int
    })) as u64
}

/// The hash of a run of bytes.
pub open spec fn bytes_hash(bytes: Seq<u8>) -> u64
    decreases bytes.len(),
{
    if bytes.len() == 0 {
        7
    } else {
        mix(bytes_hash(bytes.drop_last()), bytes.last() as u64)
    }
}

/// The hash of a key. Equal keys have equal hashes; a frozen set hashes
/// to the bitwise exclusive or of the hashes of its elements, whatever
/// their order.
pub open spec fn key_hash(k: Key) -> u64
    decreases k, 0nat,
{
    match k {
        Key::PyNone => 1,
        Key::StopIteration => 2,
        Key::Ellipsis => 3,
        Key::Bool(x) => if x {
            5
        } else {
            4
        },
        Key::Long(x) => long_hash(x),
        Key::Float(x) => float_hash(x),
        Key::Complex(x) => mix(float_hash(x.re), float_hash(x.im)),
        Key::String(x) => bytes_hash(vstd::utf8::encode_utf8(x)),
        Key::Tuple(keys) => tuple_hash(keys),
        Key::FrozenSet(keys) => xor_hash(keys),
    }
}

/// The hash of the elements of a tuple, in their order.
pub open spec fn tuple_hash(keys: Seq<Key>) -> u64
    decreases keys, 1nat,
{
    if keys.len() == 0 {
        11
    } else {
        mix(tuple_hash(keys.drop_last()), key_hash(keys.last()))
    }
}

/// The bitwise exclusive or of the hashes of the elements of a set.
pub open spec fn xor_hash(keys: Seq<Key>) -> u64
    decreases keys, 1nat,
{
    if keys.len() == 0 {
        0
    } else {
        xor_hash(keys.drop_last()) ^ key_hash(keys.last())
    }
}

/// Equality of keys. Tuples are equal element by element, frozen sets when
/// each holds an equal of every element of the other.
pub open spec fn key_eq(a: Key, b: Key) -> bool
    decreases a, 0nat, 0nat,
{
    match (a, b) {
        (Key::PyNone, Key::PyNone) => true,
        (Key::StopIteration, Key::StopIteration) => true,
        (Key::Ellipsis, Key::Ellipsis) => true,
        (Key::Bool(x), Key::Bool(y)) => x == y,
        (Key::Long(x), Key::Long(y)) => x == y,
        (Key::Float(x), Key::Float(y)) => float_eq(x, y),
        (Key::Complex(x), Key::Complex(y)) => float_eq(x.re, y.re) && float_eq(x.im, y.im),
        (Key::String(x), Key::String(y)) => x == y,
        (Key::Tuple(xs), Key::Tuple(ys)) => {
            &&& xs.len() == ys.len()
            &&& forall|i: int| 0 <= i < xs.len() ==> key_eq(#[trigger] xs[i], ys[i])
        },
        (Key::FrozenSet(xs), Key::FrozenSet(ys)) => all_within(xs, ys) && all_reached(xs, ys),
        _ => false,
    }
}

/// Whether every element of `xs` is equal to some element of `ys`.
pub open spec fn all_within(xs: Seq<Key>, ys: Seq<Key>) -> bool
    decreases xs, 2nat, 0nat,
{
    xs.len() == 0 || (all_within(xs.drop_last(), ys) && contains_key(ys, xs.last()))
}

/// Whether `k` is equal to some element of `keys`.
pub open spec fn contains_key(keys: Seq<Key>, k: Key) -> bool
    decreases k, 1nat, keys.len(),
{
    keys.len() != 0 && (contains_key(keys.drop_last(), k) || key_eq(k, keys.last()))
}

/// Whether some element of `xs` is equal to each element of `ys`.
pub open spec fn all_reached(xs: Seq<Key>, ys: Seq<Key>) -> bool
    decreases xs, 2nat, ys.len(),
{
    ys.len() == 0 || (all_reached(xs, ys.drop_last()) && equal_in(xs, ys.last()))
}

/// Whether some element of `keys` is equal to `k`.
pub open spec fn equal_in(keys: Seq<Key>, k: Key) -> bool
    decreases keys, 1nat, 0nat,
{
    keys.len() != 0 && (equal_in(keys.drop_last(), k) || key_eq(keys.last(), k))
}

/// `contains_key` holds when an element at some index is an equal of `k`.
pub proof fn lemma_contains_key(keys: Seq<Key>, k: Key)
    ensures
        contains_key(keys, k) <==> exists|j: int| 0 <= j < keys.len() && key_eq(k, #[trigger] keys[j]),
    decreases keys.len(),
{
    if keys.len() > 0 {
        let front = keys.drop_last();
        lemma_contains_key(front, k);
        if contains_key(keys, k) {
            if key_eq(k, keys.last()) {
                assert(key_eq(k, keys[keys.len() - 1]));
            } else {
                let j = choose|j: int| 0 <= j < front.len() && key_eq(k, #[trigger] front[j]);
                assert(key_eq(k, keys[j]));
            }
        }
        if exists|j: int| 0 <= j < keys.len() && key_eq(k, #[trigger] keys[j]) {
            let j = choose|j: int| 0 <= j < keys.len() && key_eq(k, #[trigger] keys[j]);
            if j < keys.len() - 1 {
                assert(key_eq(k, front[j]));
            }
        }
    }
}

/// `equal_in` holds when an element at some index is an equal of `k`.
pub proof fn lemma_equal_in(keys: Seq<Key>, k: Key)
    ensures
        equal_in(keys, k) <==> exists|i: int| 0 <= i < keys.len() && key_eq(#[trigger] keys[i], k),
    decreases keys.len(),
{
    if keys.len() > 0 {
        let front = keys.drop_last();
        lemma_equal_in(front, k);
        if equal_in(keys, k) {
            if key_eq(keys.last(), k) {
                assert(key_eq(keys[keys.len() - 1], k));
            } else {
                let i = choose|i: int| 0 <= i < front.len() && key_eq(#[trigger] front[i], k);
                assert(key_eq(keys[i], k));
            }
        }
        if exists|i: int| 0 <= i < keys.len() && key_eq(#[trigger] keys[i], k) {
            let i = choose|i: int| 0 <= i < keys.len() && key_eq(#[trigger] keys[i], k);
            if i < keys.len() - 1 {
                assert(key_eq(front[i], k));
            }
        }
    }
}

/// `all_within` holds when every element of `xs` has an equal in `ys`.
pub proof fn lemma_all_within(xs: Seq<Key>, ys: Seq<Key>)
    ensures
        all_within(xs, ys) <==> forall|i: int| 0 <= i < xs.len() ==> contains_key(ys, #[trigger] xs[i]),
    decreases xs.len(),
{
    if xs.len() > 0 {
        let front = xs.drop_last();
        lemma_all_within(front, ys);
        if all_within(xs, ys) {
            assert forall|i: int| 0 <= i < xs.len() implies contains_key(ys, #[trigger] xs[i]) by {
                if i < xs.len() - 1 {
                    assert(contains_key(ys, front[i]));
                }
            }
        }
        if forall|i: int| 0 <= i < xs.len() ==> contains_key(ys, #[trigger] xs[i]) {
            assert forall|i: int| 0 <= i < front.len() implies contains_key(ys, #[trigger] front[i]) by {
                assert(contains_key(ys, xs[i]));
            }
            assert(contains_key(ys, xs[xs.len() - 1]));
        }
    }
}

/// `all_reached` holds when every element of `ys` has an equal in `xs`.
pub proof fn lemma_all_reached(xs: Seq<Key>, ys: Seq<Key>)
    ensures
        all_reached(xs, ys) <==> forall|j: int| 0 <= j < ys.len() ==> equal_in(xs, #[trigger] ys[j]),
    decreases ys.len(),
{
    if ys.len() > 0 {
        let front = ys.drop_last();
        lemma_all_reached(xs, front);
        if all_reached(xs, ys) {
            assert forall|j: int| 0 <= j < ys.len() implies equal_in(xs, #[trigger] ys[j]) by {
                if j < ys.len() - 1 {
                    assert(equal_in(xs, front[j]));
                }
            }
        }
        if forall|j: int| 0 <= j < ys.len() ==> equal_in(xs, #[trigger] ys[j]) {
            assert forall|j: int| 0 <= j < front.len() implies equal_in(xs, #[trigger] front[j]) by {
                assert(equal_in(xs, ys[j]));
            }
            assert(equal_in(xs, ys[ys.len() - 1]));
        }
    }
}

/// Two frozen sets are equal when each element of either has an equal in
/// the other.
pub proof fn lemma_key_eq_frozenset(xs: Seq<Key>, ys: Seq<Key>)
    ensures
        key_eq(Key::FrozenSet(xs), Key::FrozenSet(ys)) <==> {
            &&& forall|i: int| 0 <= i < xs.len() ==> contains_key(ys, #[trigger] xs[i])
            &&& forall|j: int| 0 <= j < ys.len() ==> equal_in(xs, #[trigger] ys[j])
        },
{
    lemma_all_within(xs, ys);
    lemma_all_reached(xs, ys);
}

/// A set after `k` was put in: unchanged where it holds an equal of `k`.
pub open spec fn set_insert(keys: Seq<Key>, k: Key) -> Seq<Key> {
    if contains_key(keys, k) {
        keys
    } else {
        keys.push(k)
    }
}

/// The keys of the entries of a dictionary, in order.
pub open spec fn entry_keys(entries: Seq<(Key, Value)>) -> Seq<Key> {
    Seq::new(entries.len(), |i: int| entries[i].0)
}

/// Whether `i` is the first index in `keys` of an equal of `k`.
pub open spec fn first_match(keys: Seq<Key>, k: Key, i: int) -> bool {
    &&& 0 <= i < keys.len()
    &&& key_eq(k, keys[i])
    &&& forall|j: int| 0 <= j < i ==> !key_eq(k, #[trigger] keys[j])
}

/// A key has at most one first match.
pub proof fn lemma_first_match_unique(keys: Seq<Key>, k: Key, i: int, j: int)
    requires
        first_match(keys, k, i),
        first_match(keys, k, j),
    ensures
        i == j,
{
}

/// Where no element is an equal of `k`, `k` is not contained and has no
/// first match.
pub proof fn lemma_no_match(keys: Seq<Key>, k: Key)
    requires
        forall|j: int| 0 <= j < keys.len() ==> !key_eq(k, #[trigger] keys[j]),
    ensures
        !contains_key(keys, k),
        forall|i: int| !first_match(keys, k, i),
{
    lemma_contains_key(keys, k);
    if contains_key(keys, k) {
        let j = choose|j: int| 0 <= j < keys.len() && key_eq(k, #[trigger] keys[j]);
        assert(!key_eq(k, keys[j]));
    }
}

/// The value that a dictionary holds under an equal of `k`.
pub open spec fn map_get(entries: Seq<(Key, Value)>, k: Key) -> Option<Value> {
    if contains_key(entry_keys(entries), k) {
        Some(entries[choose|i: int| first_match(entry_keys(entries), k, i)].1)
    } else {
        None
    }
}

/// A dictionary after `v` was put in under `k`: where it holds an equal of
/// `k`, that entry keeps its key and takes `v`; otherwise the entry is added.
pub open spec fn map_insert(entries: Seq<(Key, Value)>, k: Key, v: Value) -> Seq<(Key, Value)> {
    if contains_key(entry_keys(entries), k) {
        let i = choose|i: int| first_match(entry_keys(entries), k, i);
        entries.update(i, (entries[i].0, v))
    } else {
        entries.push((k, v))
    }
}

/// The key that a value is, or the first part of it that cannot be a key.
pub open spec fn to_key(v: Value) -> Result<Key, Value>
    decreases v, 0nat,
{
    match v {
        Value::PyNone => Ok(Key::PyNone),
        Value::StopIteration => Ok(Key::StopIteration),
        Value::Ellipsis => Ok(Key::Ellipsis),
        Value::Bool(x) => Ok(Key::Bool(x)),
        Value::Long(x) => Ok(Key::Long(x)),
        Value::Float(x) => Ok(Key::Float(x)),
        Value::Complex(x) => Ok(Key::Complex(x)),
        Value::String(x) => Ok(Key::String(x)),
        Value::Tuple(items) => match to_keys(items) {
            Ok(keys) => Ok(Key::Tuple(keys)),
            Err(e) => Err(e),
        },
        Value::FrozenSet(keys) => Ok(Key::FrozenSet(keys)),
        _ => Err(v),
    }
}

/// The keys that the values are, or what the first value that is no key
/// fails with.
pub open spec fn to_keys(values: Seq<Value>) -> Result<Seq<Key>, Value>
    decreases values, 1nat,
{
    if values.len() == 0 {
        Ok(Seq::empty())
    } else {
        match to_keys(values.drop_last()) {
            Err(e) => Err(e),
            Ok(keys) => match to_key(values.last()) {
                Err(e) => Err(e),
                Ok(k) => Ok(keys.push(k)),
            },
        }
    }
}

/// A failure among the first values is the failure of them all.
pub proof fn lemma_to_keys_err(values: Seq<Value>, n: int)
    requires
        0 <= n <= values.len(),
        to_keys(values.take(n)) is Err,
    ensures
        to_keys(values) == to_keys(values.take(n)),
    decreases values.len() - n,
{
    if n < values.len() {
        assert(values.take(n + 1).drop_last() =~= values.take(n));
        lemma_to_keys_err(values, n + 1);
    } else {
        assert(values.take(n) =~= values);
    }
}

/// The keys of one more value.
pub proof fn lemma_to_keys_step(values: Seq<Value>, n: int)
    requires
        0 <= n < values.len(),
    ensures
        to_keys(values.take(n + 1)) == match to_keys(values.take(n)) {
            Err(e) => Err(e),
            Ok(keys) => match to_key(values[n]) {
                Err(e) => Err(e),
                Ok(k) => Ok(keys.push(k)),
            },
        },
{
    assert(values.take(n + 1).drop_last() =~= values.take(n));
}

/// The values of the keys, one by one.
pub proof fn lemma_keys_to_values(keys: Seq<Key>)
    ensures
        keys_to_values(keys).len() == keys.len(),
        forall|i: int| 0 <= i < keys.len() ==> (#[trigger] keys_to_values(keys)[i]) == key_to_value(keys[i]),
    decreases keys.len(),
{
    if keys.len() > 0 {
        lemma_keys_to_values(keys.drop_last());
    }
}

/// The value that a key is.
pub open spec fn key_to_value(k: Key) -> Value
    decreases k, 0nat,
{
    match k {
        Key::PyNone => Value::PyNone,
        Key::StopIteration => Value::StopIteration,
        Key::Ellipsis => Value::Ellipsis,
        Key::Bool(x) => Value::Bool(x),
        Key::Long(x) => Value::Long(x),
        Key::Float(x) => Value::Float(x),
        Key::Complex(x) => Value::Complex(x),
        Key::String(x) => Value::String(x),
        Key::Tuple(keys) => Value::Tuple(keys_to_values(keys)),
        Key::FrozenSet(keys) => Value::FrozenSet(keys),
    }
}

/// The values that the keys are.
pub open spec fn keys_to_values(keys: Seq<Key>) -> Seq<Value>
    decreases keys, 1nat,
{
    if keys.len() == 0 {
        Seq::empty()
    } else {
        keys_to_values(keys.drop_last()).push(key_to_value(keys.last()))
    }
}

} // verus!
