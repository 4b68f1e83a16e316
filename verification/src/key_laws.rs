//! What holds of the equality and the hashes of keys.
use vstd::prelude::*;
use crate::value::{
    contains_key, entry_keys, equal_in, first_match, float_eq, float_hash, key_eq, key_hash,
    key_to_value, keys_to_values, lemma_contains_key, lemma_equal_in, lemma_first_match_unique,
    lemma_key_eq_frozenset, map_get, map_insert, set_insert, to_key, to_keys, tuple_hash, xor_hash,
    Key, Value,
};

verus! {

/// Equality of floating-point keys is an equivalence, NaN included, and
/// equal keys have equal hashes.
pub proof fn lemma_float_eq(a: u64, b: u64, c: u64)
    ensures
        float_eq(a, a),
        float_eq(a, b) ==> float_eq(b, a),
        float_eq(a, b) && float_eq(b, c) ==> float_eq(a, c),
        float_eq(a, b) ==> float_hash(a) == float_hash(b),
{
}

/// Every key is equal to itself.
pub proof fn lemma_key_eq_reflexive(k: Key)
    ensures
        key_eq(k, k),
    decreases k,
{
    match k {
        Key::Float(x) => {
            lemma_float_eq(x, x, x);
        },
        Key::Complex(x) => {
            lemma_float_eq(x.re, x.re, x.re);
            lemma_float_eq(x.im, x.im, x.im);
        },
        Key::Tuple(xs) => {
            assert forall|i: int| 0 <= i < xs.len() implies key_eq(#[trigger] xs[i], xs[i]) by {
                lemma_key_eq_reflexive(xs[i]);
            }
        },
        Key::FrozenSet(xs) => {
            lemma_key_eq_frozenset(xs, xs);
            assert forall|i: int| 0 <= i < xs.len() implies contains_key(xs, #[trigger] xs[i]) && equal_in(
                xs,
                xs[i],
            ) by {
                lemma_key_eq_reflexive(xs[i]);
                lemma_contains_key(xs, xs[i]);
                lemma_equal_in(xs, xs[i]);
            }
        },
        _ => {},
    }
}

/// Equality of keys does not depend on the side a key stands on.
pub proof fn lemma_key_eq_symmetric(a: Key, b: Key)
    requires
        key_eq(a, b),
    ensures
        key_eq(b, a),
    decreases a,
{
    match (a, b) {
        (Key::Float(x), Key::Float(y)) => {
            lemma_float_eq(x, y, x);
        },
        (Key::Complex(x), Key::Complex(y)) => {
            lemma_float_eq(x.re, y.re, x.re);
            lemma_float_eq(x.im, y.im, x.im);
        },
        (Key::Tuple(xs), Key::Tuple(ys)) => {
            assert forall|i: int| 0 <= i < ys.len() implies key_eq(#[trigger] ys[i], xs[i]) by {
                assert(key_eq(xs[i], ys[i]));
                lemma_key_eq_symmetric(xs[i], ys[i]);
            }
        },
        (Key::FrozenSet(xs), Key::FrozenSet(ys)) => {
            lemma_key_eq_frozenset(xs, ys);
            lemma_key_eq_frozenset(ys, xs);
            assert forall|j: int| 0 <= j < ys.len() implies contains_key(xs, #[trigger] ys[j]) by {
                assert(equal_in(xs, ys[j]));
                lemma_equal_in(xs, ys[j]);
                let i = choose|i: int| 0 <= i < xs.len() && key_eq(#[trigger] xs[i], ys[j]);
                lemma_key_eq_symmetric(xs[i], ys[j]);
                lemma_contains_key(xs, ys[j]);
            }
            assert forall|i: int| 0 <= i < xs.len() implies equal_in(ys, #[trigger] xs[i]) by {
                assert(contains_key(ys, xs[i]));
                lemma_contains_key(ys, xs[i]);
                let j = choose|j: int| 0 <= j < ys.len() && key_eq(xs[i], #[trigger] ys[j]);
                lemma_key_eq_symmetric(xs[i], ys[j]);
                lemma_equal_in(ys, xs[i]);
            }
        },
        _ => {},
    }
}

/// Keys that are equal to the same key are equal.
pub proof fn lemma_key_eq_transitive(a: Key, b: Key, c: Key)
    requires
        key_eq(a, b),
        key_eq(b, c),
    ensures
        key_eq(a, c),
    decreases a,
{
    match (a, b, c) {
        (Key::Float(x), Key::Float(y), Key::Float(z)) => {
            lemma_float_eq(x, y, z);
        },
        (Key::Complex(x), Key::Complex(y), Key::Complex(z)) => {
            lemma_float_eq(x.re, y.re, z.re);
            lemma_float_eq(x.im, y.im, z.im);
        },
        (Key::Tuple(xs), Key::Tuple(ys), Key::Tuple(zs)) => {
            assert forall|i: int| 0 <= i < xs.len() implies key_eq(#[trigger] xs[i], zs[i]) by {
                assert(key_eq(xs[i], ys[i]));
                assert(key_eq(ys[i], zs[i]));
                lemma_key_eq_transitive(xs[i], ys[i], zs[i]);
            }
        },
        (Key::FrozenSet(xs), Key::FrozenSet(ys), Key::FrozenSet(zs)) => {
            lemma_key_eq_frozenset(xs, ys);
            lemma_key_eq_frozenset(ys, zs);
            lemma_key_eq_frozenset(xs, zs);
            assert forall|i: int| 0 <= i < xs.len() implies contains_key(zs, #[trigger] xs[i]) by {
                assert(contains_key(ys, xs[i]));
                lemma_contains_key(ys, xs[i]);
                let j = choose|j: int| 0 <= j < ys.len() && key_eq(xs[i], #[trigger] ys[j]);
                assert(contains_key(zs, ys[j]));
                lemma_contains_key(zs, ys[j]);
                let k = choose|k: int| 0 <= k < zs.len() && key_eq(ys[j], #[trigger] zs[k]);
                lemma_key_eq_transitive(xs[i], ys[j], zs[k]);
                lemma_contains_key(zs, xs[i]);
            }
            assert forall|k: int| 0 <= k < zs.len() implies equal_in(xs, #[trigger] zs[k]) by {
                assert(equal_in(ys, zs[k]));
                lemma_equal_in(ys, zs[k]);
                let j = choose|j: int| 0 <= j < ys.len() && key_eq(#[trigger] ys[j], zs[k]);
                assert(equal_in(xs, ys[j]));
                lemma_equal_in(xs, ys[j]);
                let i = choose|i: int| 0 <= i < xs.len() && key_eq(#[trigger] xs[i], ys[j]);
                lemma_key_eq_transitive(xs[i], ys[j], zs[k]);
                lemma_equal_in(xs, zs[k]);
            }
        },
        _ => {},
    }
}

/// A key that is made a value and then a key again is the same key.
pub proof fn lemma_key_round_trip(k: Key)
    ensures
        to_key(key_to_value(k)) == Ok::<Key, Value>(k),
    decreases k, 0nat,
{
    match k {
        Key::Tuple(keys) => {
            lemma_keys_round_trip(keys);
        },
        _ => {},
    }
}

/// Keys that are made values and then keys again are the same keys.
pub proof fn lemma_keys_round_trip(keys: Seq<Key>)
    ensures
        to_keys(keys_to_values(keys)) == Ok::<Seq<Key>, Value>(keys),
    decreases keys, 1nat,
{
    if keys.len() > 0 {
        lemma_keys_round_trip(keys.drop_last());
        lemma_key_round_trip(keys.last());
        let values = keys_to_values(keys);
        assert(values.drop_last() =~= keys_to_values(keys.drop_last()));
        assert(keys.drop_last().push(keys.last()) =~= keys);
    } else {
        assert(keys =~= Seq::<Key>::empty());
    }
}

/// Whether no two elements of `keys` are equal.
pub open spec fn no_equal_pair(keys: Seq<Key>) -> bool {
    forall|i: int, j: int| 0 <= i < j < keys.len() ==> !key_eq(#[trigger] keys[i], #[trigger] keys[j])
}

/// Whether a key is well formed: no frozen set in it holds two equal
/// elements.
pub open spec fn key_wf(k: Key) -> bool
    decreases k,
{
    match k {
        Key::Tuple(keys) => forall|i: int| 0 <= i < keys.len() ==> key_wf(#[trigger] keys[i]),
        Key::FrozenSet(keys) => {
            &&& no_equal_pair(keys)
            &&& forall|i: int| 0 <= i < keys.len() ==> key_wf(#[trigger] keys[i])
        },
        _ => true,
    }
}

/// Whether every key is well formed.
pub open spec fn keys_wf(keys: Seq<Key>) -> bool {
    forall|i: int| 0 <= i < keys.len() ==> key_wf(#[trigger] keys[i])
}

/// No two different elements of such a sequence are equal, whichever
/// comes first.
pub proof fn lemma_no_equal_pair(keys: Seq<Key>, i: int, j: int)
    requires
        no_equal_pair(keys),
        0 <= i < keys.len(),
        0 <= j < keys.len(),
        i != j,
    ensures
        !key_eq(keys[i], keys[j]),
{
    if key_eq(keys[i], keys[j]) {
        lemma_key_eq_symmetric(keys[i], keys[j]);
    }
}

/// Tuples whose elements have the same hashes have the same hash.
proof fn lemma_tuple_hash_eq(xs: Seq<Key>, ys: Seq<Key>)
    requires
        xs.len() == ys.len(),
        forall|i: int| 0 <= i < xs.len() ==> key_hash(#[trigger] xs[i]) == key_hash(ys[i]),
    ensures
        tuple_hash(xs) == tuple_hash(ys),
    decreases xs.len(),
{
    if xs.len() > 0 {
        let last = xs.len() - 1;
        assert(key_hash(xs[last]) == key_hash(ys[last]));
        assert forall|i: int| 0 <= i < xs.drop_last().len() implies key_hash(#[trigger] xs.drop_last()[i])
            == key_hash(ys.drop_last()[i]) by {
            assert(key_hash(xs[i]) == key_hash(ys[i]));
        }
        lemma_tuple_hash_eq(xs.drop_last(), ys.drop_last());
    }
}

/// The hash of a set is that of the set without one element, and that
/// element's hash.
proof fn lemma_xor_hash_remove(keys: Seq<Key>, j: int)
    requires
        0 <= j < keys.len(),
    ensures
        xor_hash(keys) == xor_hash(keys.remove(j)) ^ key_hash(keys[j]),
    decreases keys.len(),
{
    if j == keys.len() - 1 {
        assert(keys.remove(j) =~= keys.drop_last());
    } else {
        let front = keys.drop_last();
        lemma_xor_hash_remove(front, j);
        assert(keys.remove(j).drop_last() =~= front.remove(j));
        assert(keys.remove(j).last() == keys.last());
        let a = xor_hash(front.remove(j));
        let b = key_hash(keys[j]);
        let c = key_hash(keys.last());
        assert((a ^ b) ^ c == (a ^ c) ^ b) by (bit_vector);
    }
}

/// Sets that hold equals of each other's elements, and no element twice,
/// have the same hash, where equal elements have.
proof fn lemma_xor_hash_eq(xs: Seq<Key>, ys: Seq<Key>)
    requires
        no_equal_pair(xs),
        no_equal_pair(ys),
        forall|i: int| 0 <= i < xs.len() ==> contains_key(ys, #[trigger] xs[i]),
        forall|j: int| 0 <= j < ys.len() ==> equal_in(xs, #[trigger] ys[j]),
        forall|i: int, j: int|
            0 <= i < xs.len() && 0 <= j < ys.len() && key_eq(#[trigger] xs[i], #[trigger] ys[j])
                ==> key_hash(xs[i]) == key_hash(ys[j]),
    ensures
        xor_hash(xs) == xor_hash(ys),
    decreases xs.len(),
{
    if xs.len() == 0 {
        if ys.len() > 0 {
            assert(equal_in(xs, ys[0]));
            lemma_equal_in(xs, ys[0]);
        }
    } else {
        let last = xs.len() - 1;
        let x = xs[last];
        assert(contains_key(ys, xs[last]));
        lemma_contains_key(ys, x);
        let j = choose|j: int| 0 <= j < ys.len() && key_eq(x, #[trigger] ys[j]);
        lemma_key_eq_symmetric(x, ys[j]);
        let xs1 = xs.drop_last();
        let ys1 = ys.remove(j);
        lemma_xor_hash_remove(ys, j);
        assert(no_equal_pair(xs1)) by {
            assert forall|a: int, b: int| 0 <= a < b < xs1.len() implies !key_eq(
                #[trigger] xs1[a],
                #[trigger] xs1[b],
            ) by {
                assert(!key_eq(xs[a], xs[b]));
            }
        }
        assert(no_equal_pair(ys1)) by {
            assert forall|a: int, b: int| 0 <= a < b < ys1.len() implies !key_eq(
                #[trigger] ys1[a],
                #[trigger] ys1[b],
            ) by {
                let a0 = if a < j {
                    a
                } else {
                    a + 1
                };
                let b0 = if b < j {
                    b
                } else {
                    b + 1
                };
                assert(!key_eq(ys[a0], ys[b0]));
            }
        }
        assert forall|i: int| 0 <= i < xs1.len() implies contains_key(ys1, #[trigger] xs1[i]) by {
            assert(contains_key(ys, xs[i]));
            lemma_contains_key(ys, xs[i]);
            let m = choose|m: int| 0 <= m < ys.len() && key_eq(xs[i], #[trigger] ys[m]);
            if m == j {
                lemma_key_eq_transitive(xs[i], ys[j], x);
                lemma_no_equal_pair(xs, i, last);
            }
            let m1 = if m < j {
                m
            } else {
                m - 1
            };
            assert(ys1[m1] == ys[m]);
            lemma_contains_key(ys1, xs1[i]);
        }
        assert forall|m1: int| 0 <= m1 < ys1.len() implies equal_in(xs1, #[trigger] ys1[m1]) by {
            let m = if m1 < j {
                m1
            } else {
                m1 + 1
            };
            assert(ys1[m1] == ys[m]);
            assert(equal_in(xs, ys[m]));
            lemma_equal_in(xs, ys[m]);
            let i = choose|i: int| 0 <= i < xs.len() && key_eq(#[trigger] xs[i], ys[m]);
            if i == last {
                lemma_key_eq_transitive(ys[j], x, ys[m]);
                lemma_no_equal_pair(ys, j, m);
            }
            assert(xs1[i] == xs[i]);
            lemma_equal_in(xs1, ys1[m1]);
        }
        assert forall|a: int, b: int|
            0 <= a < xs1.len() && 0 <= b < ys1.len() && key_eq(
                #[trigger] xs1[a],
                #[trigger] ys1[b],
            ) implies key_hash(xs1[a]) == key_hash(ys1[b]) by {
            let b0 = if b < j {
                b
            } else {
                b + 1
            };
            assert(ys1[b] == ys[b0]);
            assert(xs1[a] == xs[a]);
        }
        lemma_xor_hash_eq(xs1, ys1);
        assert(key_hash(xs[last]) == key_hash(ys[j]));
    }
}

/// Equal keys have equal hashes.
pub proof fn lemma_key_hash_eq(a: Key, b: Key)
    requires
        key_wf(a),
        key_wf(b),
        key_eq(a, b),
    ensures
        key_hash(a) == key_hash(b),
    decreases a,
{
    match (a, b) {
        (Key::Float(x), Key::Float(y)) => {
            lemma_float_eq(x, y, x);
        },
        (Key::Complex(x), Key::Complex(y)) => {
            lemma_float_eq(x.re, y.re, x.re);
            lemma_float_eq(x.im, y.im, x.im);
        },
        (Key::Tuple(xs), Key::Tuple(ys)) => {
            assert forall|i: int| 0 <= i < xs.len() implies key_hash(#[trigger] xs[i]) == key_hash(
                ys[i],
            ) by {
                assert(key_eq(xs[i], ys[i]));
                assert(key_wf(xs[i]));
                assert(key_wf(ys[i]));
                lemma_key_hash_eq(xs[i], ys[i]);
            }
            lemma_tuple_hash_eq(xs, ys);
        },
        (Key::FrozenSet(xs), Key::FrozenSet(ys)) => {
            lemma_key_eq_frozenset(xs, ys);
            assert forall|i: int, j: int|
                0 <= i < xs.len() && 0 <= j < ys.len() && key_eq(
                    #[trigger] xs[i],
                    #[trigger] ys[j],
                ) implies key_hash(xs[i]) == key_hash(ys[j]) by {
                assert(key_wf(xs[i]));
                assert(key_wf(ys[j]));
                lemma_key_hash_eq(xs[i], ys[j]);
            }
            lemma_xor_hash_eq(xs, ys);
        },
        _ => {},
    }
}

/// A set stays without two equal elements when a key is put in.
pub proof fn lemma_set_insert_keeps_apart(keys: Seq<Key>, k: Key)
    requires
        no_equal_pair(keys),
    ensures
        no_equal_pair(set_insert(keys, k)),
{
    if !contains_key(keys, k) {
        lemma_contains_key(keys, k);
        let after = keys.push(k);
        assert forall|i: int, j: int| 0 <= i < j < after.len() implies !key_eq(
            #[trigger] after[i],
            #[trigger] after[j],
        ) by {
            if j == keys.len() {
                if key_eq(keys[i], k) {
                    lemma_key_eq_symmetric(keys[i], k);
                    assert(key_eq(k, keys[i]));
                }
            } else {
                assert(!key_eq(keys[i], keys[j]));
            }
        }
    }
}

/// A dictionary stays without two equal keys when an entry is put in.
pub proof fn lemma_map_insert_keeps_apart(entries: Seq<(Key, Value)>, k: Key, v: Value)
    requires
        no_equal_pair(entry_keys(entries)),
    ensures
        no_equal_pair(entry_keys(map_insert(entries, k, v))),
{
    let keys = entry_keys(entries);
    lemma_contains_key(keys, k);
    if contains_key(keys, k) {
        let i = choose|i: int| first_match(keys, k, i);
        assert(entry_keys(map_insert(entries, k, v)) =~= keys) by {
            let j0 = choose|j: int| 0 <= j < keys.len() && key_eq(k, #[trigger] keys[j]);
            lemma_first_match_exists(keys, k, j0);
        }
    } else {
        assert(entry_keys(entries.push((k, v))) =~= keys.push(k));
        lemma_set_insert_keeps_apart(keys, k);
    }
}

/// Where some element is an equal of `k`, one of them is the first.
pub proof fn lemma_first_match_exists(keys: Seq<Key>, k: Key, j: int)
    requires
        0 <= j < keys.len(),
        key_eq(k, keys[j]),
    ensures
        exists|i: int| first_match(keys, k, i),
    decreases j,
{
    if exists|m: int| 0 <= m < j && key_eq(k, #[trigger] keys[m]) {
        let m = choose|m: int| 0 <= m < j && key_eq(k, #[trigger] keys[m]);
        lemma_first_match_exists(keys, k, m);
    } else {
        assert(first_match(keys, k, j));
    }
}

/// A set holds what was put in, and an equal of any other key exactly
/// where it held one before.
pub proof fn lemma_set_insert_contains(keys: Seq<Key>, k: Key, other: Key)
    ensures
        contains_key(set_insert(keys, k), k),
        !key_eq(other, k) ==> (contains_key(set_insert(keys, k), other) <==> contains_key(keys, other)),
{
    lemma_contains_key(keys, k);
    lemma_contains_key(keys, other);
    lemma_contains_key(set_insert(keys, k), k);
    lemma_contains_key(set_insert(keys, k), other);
    if !contains_key(keys, k) {
        let after = keys.push(k);
        lemma_key_eq_reflexive(k);
        assert(key_eq(k, after[keys.len() as int]));
        if contains_key(keys, other) {
            let j = choose|j: int| 0 <= j < keys.len() && key_eq(other, #[trigger] keys[j]);
            assert(key_eq(other, after[j]));
        }
        if contains_key(after, other) {
            let j = choose|j: int| 0 <= j < after.len() && key_eq(other, #[trigger] after[j]);
            if j < keys.len() {
                assert(key_eq(other, keys[j]));
            }
        }
    }
}

/// A dictionary gives back the value that was put in under a key, and
/// under every other key what it gave before.
pub proof fn lemma_map_insert_get(entries: Seq<(Key, Value)>, k: Key, v: Value, other: Key)
    ensures
        map_get(map_insert(entries, k, v), k) == Some(v),
        !key_eq(other, k) ==> map_get(map_insert(entries, k, v), other) == map_get(entries, other),
{
    let keys = entry_keys(entries);
    let after = map_insert(entries, k, v);
    let after_keys = entry_keys(after);
    lemma_contains_key(keys, k);
    lemma_contains_key(keys, other);
    lemma_contains_key(after_keys, k);
    lemma_contains_key(after_keys, other);
    if contains_key(keys, k) {
        let j0 = choose|j: int| 0 <= j < keys.len() && key_eq(k, #[trigger] keys[j]);
        lemma_first_match_exists(keys, k, j0);
        let i = choose|i: int| first_match(keys, k, i);
        assert(after_keys =~= keys);
        assert(key_eq(k, after_keys[i]));
        let i2 = choose|i2: int| first_match(after_keys, k, i2);
        lemma_first_match_unique(keys, k, i, i2);
        if !key_eq(other, k) && contains_key(keys, other) {
            let m0 = choose|m: int| 0 <= m < keys.len() && key_eq(other, #[trigger] keys[m]);
            lemma_first_match_exists(keys, other, m0);
            let m = choose|m: int| first_match(keys, other, m);
            if m == i {
                lemma_key_eq_symmetric(k, keys[i]);
                lemma_key_eq_transitive(other, keys[i], k);
            }
            assert(after[m] == entries[m]);
        }
    } else {
        assert(after_keys =~= keys.push(k));
        lemma_key_eq_reflexive(k);
        let last = keys.len() as int;
        assert(key_eq(k, after_keys[last]));
        assert(first_match(after_keys, k, last)) by {
            assert forall|j: int| 0 <= j < last implies !key_eq(k, #[trigger] after_keys[j]) by {
                assert(after_keys[j] == keys[j]);
            }
        }
        let i2 = choose|i2: int| first_match(after_keys, k, i2);
        lemma_first_match_unique(after_keys, k, last, i2);
        if !key_eq(other, k) {
            if contains_key(keys, other) {
                let m0 = choose|m: int| 0 <= m < keys.len() && key_eq(other, #[trigger] keys[m]);
                lemma_first_match_exists(keys, other, m0);
                let m = choose|m: int| first_match(keys, other, m);
                assert(after_keys[m] == keys[m]);
                assert(first_match(after_keys, other, m)) by {
                    assert forall|j: int| 0 <= j < m implies !key_eq(other, #[trigger] after_keys[j]) by {
                        assert(after_keys[j] == keys[j]);
                    }
                }
                let m2 = choose|m2: int| first_match(after_keys, other, m2);
                lemma_first_match_unique(after_keys, other, m, m2);
                assert(after[m] == entries[m]);
            } else {
                if contains_key(after_keys, other) {
                    let j = choose|j: int| 0 <= j < after_keys.len() && key_eq(other, #[trigger] after_keys[j]);
                    if j < keys.len() {
                        assert(after_keys[j] == keys[j]);
                        assert(key_eq(other, keys[j]));
                    }
                }
            }
        }
    }
}

} // verus!
