//! The values that a stream is decoded to.
use vstd::prelude::*;
use num_bigint::BigInt;
use num_bigint::Sign;
use std::sync::Arc;
use crate::bigint::{bigint_eq, bigint_to_u32_digits, bigint_value, lemma_limbs_value_low};
use crate::flags::CodeFlags;
use crate::key_laws::{lemma_map_insert_keeps_apart, lemma_set_insert_keeps_apart, no_equal_pair};
use crate::std_specs::arc_clone;
use crate::value::{
    bytes_hash, contains_key, entry_keys, equal_in, first_match, float_eq, float_hash, key_eq,
    key_hash, key_to_value, keys_to_values, mix, tuple_hash, xor_hash, NAN_HASH,
    lemma_contains_key, lemma_equal_in, lemma_first_match_unique, lemma_key_eq_frozenset,
    lemma_keys_to_values, lemma_no_match, lemma_to_keys_err, lemma_to_keys_step, map_get,
    map_insert, set_insert, to_key, to_keys, CodeValue, ComplexBits, Key, Value,
};

verus! {

/// A code object.
#[derive(Clone, Debug)]
pub struct Code {
    pub argcount: u32,
    pub posonlyargcount: u32,
    pub kwonlyargcount: u32,
    pub nlocals: u32,
    pub stacksize: u32,
    pub flags: CodeFlags,
    pub code: Arc<Vec<u8>>,
    pub consts: Arc<Vec<Obj>>,
    pub names: Vec<Arc<String>>,
    pub varnames: Vec<Arc<String>>,
    pub freevars: Vec<Arc<String>>,
    pub cellvars: Vec<Arc<String>>,
    pub filename: Arc<String>,
    pub name: Arc<String>,
    pub firstlineno: u32,
    pub lnotab: Arc<Vec<u8>>,
}

/// Any value. A floating-point number is held as its IEEE-754 binary64 bit
/// pattern. Values are shared, not copied, when one is cloned.
#[derive(Debug)]
pub enum Obj {
    PyNone,
    StopIteration,
    Ellipsis,
    Bool(bool),
    Long(Arc<BigInt>),
    Float(u64),
    Complex(ComplexBits),
    Bytes(Arc<Vec<u8>>),
    String(Arc<String>),
    Tuple(Arc<Vec<Obj>>),
    List(Arc<Vec<Obj>>),
    Dict(Arc<ObjMap>),
    PySet(Arc<ObjSet>),
    FrozenSet(Arc<ObjSet>),
    Code(Arc<Code>),
}

/// A value that may be a dictionary key or a set element.
#[derive(Debug)]
pub enum ObjHashable {
    PyNone,
    StopIteration,
    Ellipsis,
    Bool(bool),
    Long(Arc<BigInt>),
    Float(u64),
    Complex(ComplexBits),
    String(Arc<String>),
    Tuple(Arc<Vec<ObjHashable>>),
    FrozenSet(Arc<ObjSet>),
}

/// A set of keys: no two of its elements are equal.
#[derive(Debug)]
pub struct ObjSet {
    items: Vec<ObjHashable>,
}

/// A dictionary: no two of its entries have equal keys.
#[derive(Debug)]
pub struct ObjMap {
    entries: Vec<(ObjHashable, Obj)>,
}

/// The texts of a sequence of strings.
pub open spec fn strings_view(s: Seq<Arc<String>>) -> Seq<Seq<char>> {
    Seq::new(s.len(), |i: int| s[i]@)
}

/// The key that a hashable value stands for.
pub closed spec fn key_view(k: ObjHashable) -> Key
    decreases k,
{
    match k {
        ObjHashable::PyNone => Key::PyNone,
        ObjHashable::StopIteration => Key::StopIteration,
        ObjHashable::Ellipsis => Key::Ellipsis,
        ObjHashable::Bool(x) => Key::Bool(x),
        ObjHashable::Long(x) => Key::Long(bigint_value(*x)),
        ObjHashable::Float(x) => Key::Float(x),
        ObjHashable::Complex(x) => Key::Complex(x),
        ObjHashable::String(x) => Key::String(x@),
        ObjHashable::Tuple(items) => Key::Tuple(keys_view(items@)),
        ObjHashable::FrozenSet(set) => Key::FrozenSet(keys_view(set.items@)),
    }
}

/// The keys that a sequence of hashable values stands for.
pub closed spec fn keys_view(s: Seq<ObjHashable>) -> Seq<Key>
    decreases s,
{
    if s.len() == 0 {
        Seq::empty()
    } else {
        keys_view(s.drop_last()).push(key_view(s.last()))
    }
}

/// The value that an object stands for.
pub closed spec fn obj_view(o: Obj) -> Value
    decreases o,
{
    match o {
        Obj::PyNone => Value::PyNone,
        Obj::StopIteration => Value::StopIteration,
        Obj::Ellipsis => Value::Ellipsis,
        Obj::Bool(x) => Value::Bool(x),
        Obj::Long(x) => Value::Long(bigint_value(*x)),
        Obj::Float(x) => Value::Float(x),
        Obj::Complex(x) => Value::Complex(x),
        Obj::Bytes(x) => Value::Bytes(x@),
        Obj::String(x) => Value::String(x@),
        Obj::Tuple(items) => Value::Tuple(objs_view(items@)),
        Obj::List(items) => Value::List(objs_view(items@)),
        Obj::Dict(map) => Value::Dict(entries_view(map.entries@)),
        Obj::PySet(set) => Value::PySet(keys_view(set.items@)),
        Obj::FrozenSet(set) => Value::FrozenSet(keys_view(set.items@)),
        Obj::Code(c) => Value::Code(
            CodeValue {
                argcount: c.argcount,
                posonlyargcount: c.posonlyargcount,
                kwonlyargcount: c.kwonlyargcount,
                nlocals: c.nlocals,
                stacksize: c.stacksize,
                flags: c.flags.spec_bits(),
                code: c.code@,
                consts: objs_view(c.consts@),
                names: strings_view(c.names@),
                varnames: strings_view(c.varnames@),
                freevars: strings_view(c.freevars@),
                cellvars: strings_view(c.cellvars@),
                filename: c.filename@,
                name: c.name@,
                firstlineno: c.firstlineno,
                lnotab: c.lnotab@,
            },
        ),
    }
}

/// The values that a sequence of objects stands for.
pub closed spec fn objs_view(s: Seq<Obj>) -> Seq<Value>
    decreases s,
{
    if s.len() == 0 {
        Seq::empty()
    } else {
        objs_view(s.drop_last()).push(obj_view(s.last()))
    }
}

/// The entries that a sequence of pairs stands for.
pub closed spec fn entries_view(s: Seq<(ObjHashable, Obj)>) -> Seq<(Key, Value)>
    decreases s,
{
    if s.len() == 0 {
        Seq::empty()
    } else {
        entries_view(s.drop_last()).push((key_view(s.last().0), obj_view(s.last().1)))
    }
}

impl View for ObjHashable {
    type V = Key;

    open spec fn view(&self) -> Key {
        key_view(*self)
    }
}

impl View for Obj {
    type V = Value;

    open spec fn view(&self) -> Value {
        obj_view(*self)
    }
}

impl View for ObjSet {
    type V = Seq<Key>;

    closed spec fn view(&self) -> Seq<Key> {
        keys_view(self.items@)
    }
}

impl View for ObjMap {
    type V = Seq<(Key, Value)>;

    closed spec fn view(&self) -> Seq<(Key, Value)> {
        entries_view(self.entries@)
    }
}

impl View for Code {
    type V = CodeValue;

    open spec fn view(&self) -> CodeValue {
        CodeValue {
            argcount: self.argcount,
            posonlyargcount: self.posonlyargcount,
            kwonlyargcount: self.kwonlyargcount,
            nlocals: self.nlocals,
            stacksize: self.stacksize,
            flags: self.flags.spec_bits(),
            code: self.code@,
            consts: objs_view(self.consts@),
            names: strings_view(self.names@),
            varnames: strings_view(self.varnames@),
            freevars: strings_view(self.freevars@),
            cellvars: strings_view(self.cellvars@),
            filename: self.filename@,
            name: self.name@,
            firstlineno: self.firstlineno,
            lnotab: self.lnotab@,
        }
    }
}

/// What the view of each kind of object is.
pub broadcast proof fn lemma_obj_view(o: Obj)
    ensures
        #[trigger] obj_view(o) == match o {
            Obj::PyNone => Value::PyNone,
            Obj::StopIteration => Value::StopIteration,
            Obj::Ellipsis => Value::Ellipsis,
            Obj::Bool(x) => Value::Bool(x),
            Obj::Long(x) => Value::Long(bigint_value(*x)),
            Obj::Float(x) => Value::Float(x),
            Obj::Complex(x) => Value::Complex(x),
            Obj::Bytes(x) => Value::Bytes(x@),
            Obj::String(x) => Value::String(x@),
            Obj::Tuple(items) => Value::Tuple(objs_view(items@)),
            Obj::List(items) => Value::List(objs_view(items@)),
            Obj::Dict(map) => Value::Dict(map@),
            Obj::PySet(set) => Value::PySet(set@),
            Obj::FrozenSet(set) => Value::FrozenSet(set@),
            Obj::Code(c) => Value::Code(c@),
        },
{
}

/// What the view of each kind of hashable value is.
pub broadcast proof fn lemma_key_view(k: ObjHashable)
    ensures
        #[trigger] key_view(k) == match k {
            ObjHashable::PyNone => Key::PyNone,
            ObjHashable::StopIteration => Key::StopIteration,
            ObjHashable::Ellipsis => Key::Ellipsis,
            ObjHashable::Bool(x) => Key::Bool(x),
            ObjHashable::Long(x) => Key::Long(bigint_value(*x)),
            ObjHashable::Float(x) => Key::Float(x),
            ObjHashable::Complex(x) => Key::Complex(x),
            ObjHashable::String(x) => Key::String(x@),
            ObjHashable::Tuple(items) => Key::Tuple(keys_view(items@)),
            ObjHashable::FrozenSet(set) => Key::FrozenSet(set@),
        },
{
}

/// The view of a sequence of objects is the sequence of their views.
pub broadcast proof fn lemma_objs_view(s: Seq<Obj>)
    ensures
        (#[trigger] objs_view(s)).len() == s.len(),
        forall|i: int| 0 <= i < s.len() ==> (#[trigger] objs_view(s)[i]) == obj_view(s[i]),
    decreases s.len(),
{
    if s.len() > 0 {
        lemma_objs_view(s.drop_last());
    }
}

/// The view of a sequence of hashable values is the sequence of their views.
pub broadcast proof fn lemma_keys_view(s: Seq<ObjHashable>)
    ensures
        (#[trigger] keys_view(s)).len() == s.len(),
        forall|i: int| 0 <= i < s.len() ==> (#[trigger] keys_view(s)[i]) == key_view(s[i]),
    decreases s.len(),
{
    if s.len() > 0 {
        lemma_keys_view(s.drop_last());
    }
}

/// The view of a sequence of pairs is the sequence of the pairs of views.
pub broadcast proof fn lemma_entries_view(s: Seq<(ObjHashable, Obj)>)
    ensures
        (#[trigger] entries_view(s)).len() == s.len(),
        forall|i: int|
            0 <= i < s.len() ==> (#[trigger] entries_view(s)[i]) == (key_view(s[i].0), obj_view(s[i].1)),
    decreases s.len(),
{
    if s.len() > 0 {
        lemma_entries_view(s.drop_last());
    }
}

pub broadcast group group_views {
    lemma_obj_view,
    lemma_key_view,
    lemma_objs_view,
    lemma_keys_view,
    lemma_entries_view,
}

impl Clone for Obj {
    /// The same value, sharing what it points to.
    fn clone(&self) -> (r: Self)
        ensures
            r == *self,
    {
        match self {
            Obj::PyNone => Obj::PyNone,
            Obj::StopIteration => Obj::StopIteration,
            Obj::Ellipsis => Obj::Ellipsis,
            Obj::Bool(x) => Obj::Bool(*x),
            Obj::Long(x) => Obj::Long(arc_clone(x)),
            Obj::Float(x) => Obj::Float(*x),
            Obj::Complex(x) => Obj::Complex(*x),
            Obj::Bytes(x) => Obj::Bytes(arc_clone(x)),
            Obj::String(x) => Obj::String(arc_clone(x)),
            Obj::Tuple(x) => Obj::Tuple(arc_clone(x)),
            Obj::List(x) => Obj::List(arc_clone(x)),
            Obj::Dict(x) => Obj::Dict(arc_clone(x)),
            Obj::PySet(x) => Obj::PySet(arc_clone(x)),
            Obj::FrozenSet(x) => Obj::FrozenSet(arc_clone(x)),
            Obj::Code(x) => Obj::Code(arc_clone(x)),
        }
    }
}

impl Clone for ObjHashable {
    /// The same value, sharing what it points to.
    fn clone(&self) -> (r: Self)
        ensures
            r == *self,
    {
        match self {
            ObjHashable::PyNone => ObjHashable::PyNone,
            ObjHashable::StopIteration => ObjHashable::StopIteration,
            ObjHashable::Ellipsis => ObjHashable::Ellipsis,
            ObjHashable::Bool(x) => ObjHashable::Bool(*x),
            ObjHashable::Long(x) => ObjHashable::Long(arc_clone(x)),
            ObjHashable::Float(x) => ObjHashable::Float(*x),
            ObjHashable::Complex(x) => ObjHashable::Complex(*x),
            ObjHashable::String(x) => ObjHashable::String(arc_clone(x)),
            ObjHashable::Tuple(x) => ObjHashable::Tuple(arc_clone(x)),
            ObjHashable::FrozenSet(x) => ObjHashable::FrozenSet(arc_clone(x)),
        }
    }
}

impl Clone for ObjSet {
    /// A set of the same elements, which it shares with this one.
    fn clone(&self) -> (r: Self)
        ensures
            r@ == self@,
    {
        proof {
            use_type_invariant(self);
        }
        let mut items: Vec<ObjHashable> = Vec::new();
        let mut i: usize = 0;
        while i < self.items.len()
            invariant
                i <= self.items.len(),
                items@ == self.items@.take(i as int),
            decreases self.items.len() - i,
        {
            let item = self.items[i].clone();
            assert(self.items@.take(i + 1) =~= self.items@.take(i as int).push(item));
            items.push(item);
            i = i + 1;
        }
        assert(items@ =~= self.items@);
        ObjSet { items }
    }
}

impl Clone for ObjMap {
    /// A dictionary of the same entries, which it shares with this one.
    fn clone(&self) -> (r: Self)
        ensures
            r@ == self@,
    {
        proof {
            use_type_invariant(self);
        }
        let mut entries: Vec<(ObjHashable, Obj)> = Vec::new();
        let mut i: usize = 0;
        while i < self.entries.len()
            invariant
                i <= self.entries.len(),
                entries@ == self.entries@.take(i as int),
            decreases self.entries.len() - i,
        {
            let key = self.entries[i].0.clone();
            let value = self.entries[i].1.clone();
            assert(self.entries@.take(i + 1) =~= self.entries@.take(i as int).push((key, value)));
            entries.push((key, value));
            i = i + 1;
        }
        assert(entries@ =~= self.entries@);
        ObjMap { entries }
    }
}

impl PartialEq for ObjHashable {
    /// Whether the two keys are equal.
    fn eq(&self, other: &ObjHashable) -> (r: bool) {
        self.eq_key(other)
    }
}

impl vstd::std_specs::cmp::PartialEqSpecImpl for ObjHashable {
    open spec fn obeys_eq_spec() -> bool {
        true
    }

    open spec fn eq_spec(&self, other: &ObjHashable) -> bool {
        key_eq(self@, other@)
    }
}

/// Whether two floating-point keys are equal.
pub fn float_key_eq(a: u64, b: u64) -> (r: bool)
    ensures
        r == float_eq(a, b),
{
    let x: u64 = a & 0x7fff_ffff_ffff_ffff;
    let y: u64 = b & 0x7fff_ffff_ffff_ffff;
    a == b || (x > 0x7ff0_0000_0000_0000 && y > 0x7ff0_0000_0000_0000) || (x == 0 && y == 0)
}

/// The hash of a floating-point key.
pub fn float_key_hash(bits: u64) -> (r: u64)
    ensures
        r == float_hash(bits),
{
    let magnitude: u64 = bits & 0x7fff_ffff_ffff_ffff;
    if magnitude > 0x7ff0_0000_0000_0000 {
        NAN_HASH
    } else if magnitude == 0 {
        0
    } else {
        bits
    }
}

/// Two hashes made into one.
fn mix_hash(a: u64, b: u64) -> (r: u64)
    ensures
        r == mix(a, b),
{
    a.wrapping_mul(31).wrapping_add(b)
}

impl ObjHashable {
    /// The hash of this key.
    pub fn hash(&self) -> (r: u64)
        ensures
            r == key_hash(self@),
        decreases self,
    {
        broadcast use group_views;

        match self {
            ObjHashable::PyNone => 1,
            ObjHashable::StopIteration => 2,
            ObjHashable::Ellipsis => 3,
            ObjHashable::Bool(x) => if *x {
                5
            } else {
                4
            },
            ObjHashable::Long(x) => {
                let (sign, digits) = bigint_to_u32_digits(x);
                proof {
                    lemma_limbs_value_low(digits@);
                }
                let low: u64 = if digits.len() > 0 {
                    digits[0] as u64
                } else {
                    0
                };
                match sign {
                    Sign::Minus => low * 2 + 1,
                    _ => low * 2,
                }
            },
            ObjHashable::Float(x) => float_key_hash(*x),
            ObjHashable::Complex(x) => mix_hash(float_key_hash(x.re), float_key_hash(x.im)),
            ObjHashable::String(x) => {
                let bytes = x.as_str().as_bytes();
                let mut h: u64 = 7;
                let mut i: usize = 0;
                assert(bytes@.take(0) =~= Seq::<u8>::empty());
                while i < bytes.len()
                    invariant
                        i <= bytes.len(),
                        h == bytes_hash(bytes@.take(i as int)),
                    decreases bytes.len() - i,
                {
                    assert(bytes@.take(i + 1).drop_last() =~= bytes@.take(i as int));
                    h = mix_hash(h, bytes[i] as u64);
                    i = i + 1;
                }
                assert(bytes@.take(i as int) =~= bytes@);
                h
            },
            ObjHashable::Tuple(keys) => {
                let mut h: u64 = 11;
                let mut i: usize = 0;
                let ghost all = keys_view(keys@);
                assert(all.take(0) =~= Seq::<Key>::empty());
                while i < keys.len()
                    invariant
                        i <= keys.len(),
                        all == keys_view(keys@),
                        decreases_to!(*self => *keys),
                        h == tuple_hash(all.take(i as int)),
                    decreases keys.len() - i,
                {
                    broadcast use group_views;

                    assert(all.take(i + 1).drop_last() =~= all.take(i as int));
                    assert(decreases_to!(**keys => (**keys)[i as int]));
                    h = mix_hash(h, keys[i].hash());
                    i = i + 1;
                }
                assert(all.take(i as int) =~= all);
                h
            },
            ObjHashable::FrozenSet(set) => {
                let mut h: u64 = 0;
                let mut i: usize = 0;
                let ghost all = keys_view(set.items@);
                assert(all.take(0) =~= Seq::<Key>::empty());
                while i < set.items.len()
                    invariant
                        i <= set.items.len(),
                        all == keys_view(set.items@),
                        decreases_to!(*self => *set),
                        h == xor_hash(all.take(i as int)),
                    decreases set.items.len() - i,
                {
                    broadcast use group_views;

                    assert(all.take(i + 1).drop_last() =~= all.take(i as int));
                    assert(decreases_to!(set.items => set.items[i as int]));
                    h = h ^ set.items[i].hash();
                    i = i + 1;
                }
                assert(all.take(i as int) =~= all);
                h
            },
        }
    }

    /// Whether this key and `other` are equal.
    pub fn eq_key(&self, other: &ObjHashable) -> (r: bool)
        ensures
            r == key_eq(self@, other@),
        decreases self, 0nat,
    {
        broadcast use group_views;

        match (self, other) {
            (ObjHashable::PyNone, ObjHashable::PyNone) => true,
            (ObjHashable::StopIteration, ObjHashable::StopIteration) => true,
            (ObjHashable::Ellipsis, ObjHashable::Ellipsis) => true,
            (ObjHashable::Bool(x), ObjHashable::Bool(y)) => *x == *y,
            (ObjHashable::Long(x), ObjHashable::Long(y)) => bigint_eq(x, y),
            (ObjHashable::Float(x), ObjHashable::Float(y)) => float_key_eq(*x, *y),
            (ObjHashable::Complex(x), ObjHashable::Complex(y)) => float_key_eq(x.re, y.re)
                && float_key_eq(x.im, y.im),
            (ObjHashable::String(x), ObjHashable::String(y)) => **x == **y,
            (ObjHashable::Tuple(xs), ObjHashable::Tuple(ys)) => {
                if xs.len() != ys.len() {
                    return false;
                }
                let mut i: usize = 0;
                while i < xs.len()
                    invariant
                        i <= xs.len(),
                        xs.len() == ys.len(),
                        decreases_to!(*self => *xs),
                        *self == ObjHashable::Tuple(*xs),
                        *other == ObjHashable::Tuple(*ys),
                        forall|a: int|
                            0 <= a < i ==> key_eq(#[trigger] keys_view(xs@)[a], keys_view(ys@)[a]),
                    decreases xs.len() - i,
                {
                    broadcast use group_views;

                    assert(decreases_to!(**xs => (**xs)[i as int]));
                    if !xs[i].eq_key(&ys[i]) {
                        assert(!key_eq(keys_view(xs@)[i as int], keys_view(ys@)[i as int]));
                        return false;
                    }
                    i = i + 1;
                }
                true
            },
            (ObjHashable::FrozenSet(xs), ObjHashable::FrozenSet(ys)) => {
                proof {
                    lemma_key_eq_frozenset(xs@, ys@);
                }
                let mut i: usize = 0;
                while i < xs.items.len()
                    invariant
                        i <= xs.items.len(),
                        key_eq(self@, other@) <==> {
                            &&& forall|i: int| 0 <= i < xs@.len() ==> contains_key(ys@, #[trigger] xs@[i])
                            &&& forall|j: int| 0 <= j < ys@.len() ==> equal_in(xs@, #[trigger] ys@[j])
                        },
                        decreases_to!(*self => *xs),
                        *self == ObjHashable::FrozenSet(*xs),
                        *other == ObjHashable::FrozenSet(*ys),
                        forall|a: int| 0 <= a < i ==> contains_key(ys@, #[trigger] xs@[a]),
                    decreases xs.items.len() - i,
                {
                    broadcast use group_views;

                    assert(decreases_to!(xs.items => xs.items[i as int]));
                    if !ys.contains_of(&xs.items[i]) {
                        assert(!contains_key(ys@, xs@[i as int]));
                        return false;
                    }
                    i = i + 1;
                }
                let mut j: usize = 0;
                while j < ys.items.len()
                    invariant
                        j <= ys.items.len(),
                        key_eq(self@, other@) <==> {
                            &&& forall|i: int| 0 <= i < xs@.len() ==> contains_key(ys@, #[trigger] xs@[i])
                            &&& forall|j: int| 0 <= j < ys@.len() ==> equal_in(xs@, #[trigger] ys@[j])
                        },
                        decreases_to!(*self => *xs),
                        *self == ObjHashable::FrozenSet(*xs),
                        *other == ObjHashable::FrozenSet(*ys),
                        forall|a: int| 0 <= a < xs@.len() ==> contains_key(ys@, #[trigger] xs@[a]),
                        forall|b: int| 0 <= b < j ==> equal_in(xs@, #[trigger] ys@[b]),
                    decreases ys.items.len() - j,
                {
                    broadcast use group_views;

                    if !xs.holds_equal(&ys.items[j]) {
                        assert(!equal_in(xs@, ys@[j as int]));
                        return false;
                    }
                    j = j + 1;
                }
                true
            },
            _ => false,
        }
    }
}

impl ObjHashable {
    /// This value as a key, or the first part of it that cannot be one.
    pub fn try_from(orig: &Obj) -> (r: Result<ObjHashable, Obj>)
        ensures
            match to_key(orig@) {
                Ok(k) => r matches Ok(h) && h@ == k,
                Err(v) => r matches Err(o) && o@ == v,
            },
        decreases orig,
    {
        broadcast use group_views;

        match orig {
            Obj::PyNone => Ok(ObjHashable::PyNone),
            Obj::StopIteration => Ok(ObjHashable::StopIteration),
            Obj::Ellipsis => Ok(ObjHashable::Ellipsis),
            Obj::Bool(x) => Ok(ObjHashable::Bool(*x)),
            Obj::Long(x) => Ok(ObjHashable::Long(arc_clone(x))),
            Obj::Float(x) => Ok(ObjHashable::Float(*x)),
            Obj::Complex(x) => Ok(ObjHashable::Complex(*x)),
            Obj::String(x) => Ok(ObjHashable::String(arc_clone(x))),
            Obj::Tuple(items) => {
                let mut keys: Vec<ObjHashable> = Vec::new();
                let mut i: usize = 0;
                let ghost values = objs_view(items@);
                assert(values.take(0) =~= Seq::<Value>::empty());
                assert(keys_view(keys@) =~= Seq::<Key>::empty());
                while i < items.len()
                    invariant
                        i <= items.len(),
                        values == objs_view(items@),
                        orig@ == Value::Tuple(values),
                        decreases_to!(*orig => *items),
                        to_keys(values.take(i as int)) == Ok::<Seq<Key>, Value>(keys_view(keys@)),
                    decreases items.len() - i,
                {
                    broadcast use group_views;

                    proof {
                        lemma_to_keys_step(values, i as int);
                    }
                    assert(decreases_to!(**items => (**items)[i as int]));
                    match ObjHashable::try_from(&items[i]) {
                        Ok(k) => {
                            assert(keys_view(keys@.push(k)) =~= keys_view(keys@).push(k@));
                            keys.push(k);
                        },
                        Err(e) => {
                            proof {
                                lemma_to_keys_err(values, i + 1);
                            }
                            return Err(e);
                        },
                    }
                    i = i + 1;
                }
                assert(values.take(i as int) =~= values);
                Ok(ObjHashable::Tuple(Arc::new(keys)))
            },
            Obj::FrozenSet(set) => Ok(ObjHashable::FrozenSet(arc_clone(set))),
            _ => Err(orig.clone()),
        }
    }

    /// This key as a value.
    pub fn to_obj(&self) -> (r: Obj)
        ensures
            r@ == key_to_value(self@),
        decreases self,
    {
        broadcast use group_views;

        match self {
            ObjHashable::PyNone => Obj::PyNone,
            ObjHashable::StopIteration => Obj::StopIteration,
            ObjHashable::Ellipsis => Obj::Ellipsis,
            ObjHashable::Bool(x) => Obj::Bool(*x),
            ObjHashable::Long(x) => Obj::Long(arc_clone(x)),
            ObjHashable::Float(x) => Obj::Float(*x),
            ObjHashable::Complex(x) => Obj::Complex(*x),
            ObjHashable::String(x) => Obj::String(arc_clone(x)),
            ObjHashable::Tuple(keys) => {
                let mut items: Vec<Obj> = Vec::new();
                let mut i: usize = 0;
                while i < keys.len()
                    invariant
                        i <= keys.len(),
                        decreases_to!(*self => *keys),
                        items@.len() == i,
                        forall|a: int| 0 <= a < i ==> obj_view(#[trigger] items@[a]) == key_to_value(keys_view(keys@)[a]),
                    decreases keys.len() - i,
                {
                    broadcast use group_views;

                    assert(decreases_to!(**keys => (**keys)[i as int]));
                    let item = keys[i].to_obj();
                    items.push(item);
                    i = i + 1;
                }
                proof {
                    lemma_keys_to_values(keys_view(keys@));
                    assert(objs_view(items@) =~= keys_to_values(keys_view(keys@)));
                }
                Obj::Tuple(Arc::new(items))
            },
            ObjHashable::FrozenSet(set) => Obj::FrozenSet(arc_clone(set)),
        }
    }
}

impl ObjSet {
    /// No two elements are equal.
    #[verifier::type_invariant]
    spec fn distinct(&self) -> bool {
        no_equal_pair(keys_view(self.items@))
    }

    /// The set without elements.
    pub fn new() -> (r: Self)
        ensures
            r@ == Seq::<Key>::empty(),
    {
        broadcast use group_views;

        let r = ObjSet { items: Vec::new() };
        assert(r@ =~= Seq::<Key>::empty());
        r
    }

    /// How many elements the set has; no two of them are equal.
    pub fn len(&self) -> (r: usize)
        ensures
            r == self@.len(),
            no_equal_pair(self@),
    {
        broadcast use group_views;

        proof {
            use_type_invariant(self);
        }
        self.items.len()
    }

    /// Whether the set has no element.
    pub fn is_empty(&self) -> (r: bool)
        ensures
            r == (self@.len() == 0),
    {
        broadcast use group_views;

        self.items.len() == 0
    }

    /// The element at `index`, counted in the order of insertion.
    pub fn get(&self, index: usize) -> (r: Option<&ObjHashable>)
        ensures
            r is Some <==> index < self@.len(),
            r matches Some(k) ==> k@ == self@[index as int],
    {
        broadcast use group_views;

        if index < self.items.len() {
            Some(&self.items[index])
        } else {
            None
        }
    }

    /// Whether the set holds an equal of `k`.
    pub fn contains(&self, k: &ObjHashable) -> (r: bool)
        ensures
            r == contains_key(self@, k@),
    {
        self.contains_of(k)
    }

    /// Puts `k` in, unless the set holds an equal of it already; says
    /// whether it was put in.
    pub fn insert(&mut self, k: ObjHashable) -> (r: bool)
        ensures
            final(self)@ == set_insert(old(self)@, k@),
            r == !contains_key(old(self)@, k@),
    {
        broadcast use group_views;

        proof {
            use_type_invariant(&*self);
            lemma_set_insert_keeps_apart(self@, k@);
        }
        if self.contains_of(&k) {
            false
        } else {
            assert(keys_view(self.items@.push(k)) =~= keys_view(self.items@).push(k@));
            let mut taken = ObjSet::new();
            core::mem::swap(self, &mut taken);
            let mut items = taken.items;
            items.push(k);
            *self = ObjSet { items };
            true
        }
    }

    /// Whether `k` is equal to an element of this set. (`k` is compared on
    /// the left.)
    fn contains_of(&self, k: &ObjHashable) -> (r: bool)
        ensures
            r == contains_key(self@, k@),
        decreases k, 1nat,
    {
        broadcast use group_views;

        proof {
            lemma_contains_key(self@, k@);
        }
        let mut j: usize = 0;
        while j < self.items.len()
            invariant
                j <= self.items.len(),
                contains_key(self@, k@) <==> exists|j: int|
                    0 <= j < self@.len() && key_eq(k@, #[trigger] self@[j]),
                forall|b: int| 0 <= b < j ==> !key_eq(k@, #[trigger] self@[b]),
            decreases self.items.len() - j,
        {
            broadcast use group_views;

            if k.eq_key(&self.items[j]) {
                assert(key_eq(k@, self@[j as int]));
                return true;
            }
            j = j + 1;
        }
        false
    }

    /// Whether an element of this set is equal to `k`. (`k` is compared on
    /// the right.)
    fn holds_equal(&self, k: &ObjHashable) -> (r: bool)
        ensures
            r == equal_in(self@, k@),
        decreases self, 1nat,
    {
        broadcast use group_views;

        proof {
            lemma_equal_in(self@, k@);
        }
        let mut i: usize = 0;
        while i < self.items.len()
            invariant
                i <= self.items.len(),
                equal_in(self@, k@) <==> exists|i: int|
                    0 <= i < self@.len() && key_eq(#[trigger] self@[i], k@),
                forall|a: int| 0 <= a < i ==> !key_eq(#[trigger] self@[a], k@),
            decreases self.items.len() - i,
        {
            broadcast use group_views;

                    if self.items[i].eq_key(k) {
                assert(key_eq(self@[i as int], k@));
                return true;
            }
            i = i + 1;
        }
        false
    }
}

impl ObjMap {
    /// No two entries have equal keys.
    #[verifier::type_invariant]
    spec fn distinct(&self) -> bool {
        no_equal_pair(entry_keys(entries_view(self.entries@)))
    }

    /// The dictionary without entries.
    pub fn new() -> (r: Self)
        ensures
            r@ == Seq::<(Key, Value)>::empty(),
    {
        broadcast use group_views;

        let r = ObjMap { entries: Vec::new() };
        assert(r@ =~= Seq::<(Key, Value)>::empty());
        r
    }

    /// How many entries the dictionary has; no two of their keys are
    /// equal.
    pub fn len(&self) -> (r: usize)
        ensures
            r == self@.len(),
            no_equal_pair(entry_keys(self@)),
    {
        broadcast use group_views;

        proof {
            use_type_invariant(self);
        }
        self.entries.len()
    }

    /// Whether the dictionary has no entry.
    pub fn is_empty(&self) -> (r: bool)
        ensures
            r == (self@.len() == 0),
    {
        broadcast use group_views;

        self.entries.len() == 0
    }

    /// The entry at `index`, counted in the order of insertion.
    pub fn entry(&self, index: usize) -> (r: Option<(&ObjHashable, &Obj)>)
        ensures
            r is Some <==> index < self@.len(),
            r matches Some(e) ==> (e.0@, e.1@) == self@[index as int],
    {
        broadcast use group_views;

        if index < self.entries.len() {
            Some((&self.entries[index].0, &self.entries[index].1))
        } else {
            None
        }
    }

    /// Where the first entry with an equal of `k` as its key stands, if
    /// there is one.
    fn position(&self, k: &ObjHashable) -> (r: Option<usize>)
        ensures
            r is Some <==> contains_key(entry_keys(self@), k@),
            r matches Some(i) ==> first_match(entry_keys(self@), k@, i as int),
    {
        broadcast use group_views;

        let ghost keys = entry_keys(self@);
        let mut i: usize = 0;
        while i < self.entries.len()
            invariant
                i <= self.entries.len(),
                keys == entry_keys(self@),
                forall|j: int| 0 <= j < i ==> !key_eq(k@, #[trigger] keys[j]),
            decreases self.entries.len() - i,
        {
            broadcast use group_views;

            if k.eq_key(&self.entries[i].0) {
                proof {
                    lemma_contains_key(keys, k@);
                    assert(key_eq(k@, keys[i as int]));
                }
                return Some(i);
            }
            i = i + 1;
        }
        proof {
            lemma_no_match(keys, k@);
        }
        None
    }

    /// The value held under an equal of `k`.
    pub fn get(&self, k: &ObjHashable) -> (r: Option<&Obj>)
        ensures
            match map_get(self@, k@) {
                Some(v) => r matches Some(o) && o@ == v,
                None => r is None,
            },
    {
        broadcast use group_views;

        match self.position(k) {
            Some(i) => {
                proof {
                    let j = choose|j: int| first_match(entry_keys(self@), k@, j);
                    lemma_first_match_unique(entry_keys(self@), k@, i as int, j);
                }
                Some(&self.entries[i].1)
            },
            None => None,
        }
    }

    /// Whether the dictionary holds an entry under an equal of `k`.
    pub fn contains_key(&self, k: &ObjHashable) -> (r: bool)
        ensures
            r == contains_key(entry_keys(self@), k@),
    {
        self.position(k).is_some()
    }

    /// Puts `v` in under `k`. Where an entry has an equal of `k` as its
    /// key, that entry keeps its key and takes `v`, and its old value is
    /// returned.
    pub fn insert(&mut self, k: ObjHashable, v: Obj) -> (r: Option<Obj>)
        ensures
            final(self)@ == map_insert(old(self)@, k@, v@),
            match map_get(old(self)@, k@) {
                Some(x) => r matches Some(o) && o@ == x,
                None => r is None,
            },
    {
        broadcast use group_views;

        proof {
            use_type_invariant(&*self);
            lemma_map_insert_keeps_apart(self@, k@, v@);
        }
        match self.position(&k) {
            Some(i) => {
                proof {
                    let j = choose|j: int| first_match(entry_keys(self@), k@, j);
                    lemma_first_match_unique(entry_keys(self@), k@, i as int, j);
                }
                let key = self.entries[i].0.clone();
                let previous = self.entries[i].1.clone();
                assert(entries_view(self.entries@.update(i as int, (key, v))) =~= entries_view(
                    self.entries@,
                ).update(i as int, (key@, v@)));
                let mut taken = ObjMap::new();
                core::mem::swap(self, &mut taken);
                let mut entries = taken.entries;
                entries.set(i, (key, v));
                *self = ObjMap { entries };
                Some(previous)
            },
            None => {
                assert(entries_view(self.entries@.push((k, v))) =~= entries_view(self.entries@).push(
                    (k@, v@),
                ));
                let mut taken = ObjMap::new();
                core::mem::swap(self, &mut taken);
                let mut entries = taken.entries;
                entries.push((k, v));
                *self = ObjMap { entries };
                None
            },
        }
    }
}

impl Obj {
    /// Nothing, where the value is `None`; the value itself where it is not.
    pub fn extract_none(self) -> (r: Result<(), Self>)
        ensures
            r == (match self {
                Obj::PyNone => Ok::<(), Obj>(()),
                _ => Err::<(), Obj>(self),
            }),
    {
        match self {
            Obj::PyNone => Ok(()),
            other => Err(other),
        }
    }

    /// Nothing, where the value is `StopIteration`; the value itself where it is not.
    pub fn extract_stop_iteration(self) -> (r: Result<(), Self>)
        ensures
            r == (match self {
                Obj::StopIteration => Ok::<(), Obj>(()),
                _ => Err::<(), Obj>(self),
            }),
    {
        match self {
            Obj::StopIteration => Ok(()),
            other => Err(other),
        }
    }

    /// What the value holds, where the value is a boolean; the value itself where it is not.
    pub fn extract_bool(self) -> (r: Result<bool, Self>)
        ensures
            r == (match self {
                Obj::Bool(x) => Ok::<bool, Obj>(x),
                _ => Err::<bool, Obj>(self),
            }),
    {
        match self {
            Obj::Bool(x) => Ok(x),
            other => Err(other),
        }
    }

    /// What the value holds, where the value is an integer; the value itself where it is not.
    pub fn extract_long(self) -> (r: Result<Arc<BigInt>, Self>)
        ensures
            r == (match self {
                Obj::Long(x) => Ok::<Arc<BigInt>, Obj>(x),
                _ => Err::<Arc<BigInt>, Obj>(self),
            }),
    {
        match self {
            Obj::Long(x) => Ok(x),
            other => Err(other),
        }
    }

    /// What the value holds, where the value is a floating-point number; the value itself where it is not.
    pub fn extract_float(self) -> (r: Result<u64, Self>)
        ensures
            r == (match self {
                Obj::Float(x) => Ok::<u64, Obj>(x),
                _ => Err::<u64, Obj>(self),
            }),
    {
        match self {
            Obj::Float(x) => Ok(x),
            other => Err(other),
        }
    }

    /// What the value holds, where the value is a byte string; the value itself where it is not.
    pub fn extract_bytes(self) -> (r: Result<Arc<Vec<u8>>, Self>)
        ensures
            r == (match self {
                Obj::Bytes(x) => Ok::<Arc<Vec<u8>>, Obj>(x),
                _ => Err::<Arc<Vec<u8>>, Obj>(self),
            }),
    {
        match self {
            Obj::Bytes(x) => Ok(x),
            other => Err(other),
        }
    }

    /// What the value holds, where the value is a text; the value itself where it is not.
    pub fn extract_string(self) -> (r: Result<Arc<String>, Self>)
        ensures
            r == (match self {
                Obj::String(x) => Ok::<Arc<String>, Obj>(x),
                _ => Err::<Arc<String>, Obj>(self),
            }),
    {
        match self {
            Obj::String(x) => Ok(x),
            other => Err(other),
        }
    }

    /// What the value holds, where the value is a tuple; the value itself where it is not.
    pub fn extract_tuple(self) -> (r: Result<Arc<Vec<Obj>>, Self>)
        ensures
            r == (match self {
                Obj::Tuple(x) => Ok::<Arc<Vec<Obj>>, Obj>(x),
                _ => Err::<Arc<Vec<Obj>>, Obj>(self),
            }),
    {
        match self {
            Obj::Tuple(x) => Ok(x),
            other => Err(other),
        }
    }

    /// What the value holds, where the value is a list; the value itself where it is not.
    pub fn extract_list(self) -> (r: Result<Arc<Vec<Obj>>, Self>)
        ensures
            r == (match self {
                Obj::List(x) => Ok::<Arc<Vec<Obj>>, Obj>(x),
                _ => Err::<Arc<Vec<Obj>>, Obj>(self),
            }),
    {
        match self {
            Obj::List(x) => Ok(x),
            other => Err(other),
        }
    }

    /// What the value holds, where the value is a dictionary; the value itself where it is not.
    pub fn extract_dict(self) -> (r: Result<Arc<ObjMap>, Self>)
        ensures
            r == (match self {
                Obj::Dict(x) => Ok::<Arc<ObjMap>, Obj>(x),
                _ => Err::<Arc<ObjMap>, Obj>(self),
            }),
    {
        match self {
            Obj::Dict(x) => Ok(x),
            other => Err(other),
        }
    }

    /// What the value holds, where the value is a set; the value itself where it is not.
    pub fn extract_set(self) -> (r: Result<Arc<ObjSet>, Self>)
        ensures
            r == (match self {
                Obj::PySet(x) => Ok::<Arc<ObjSet>, Obj>(x),
                _ => Err::<Arc<ObjSet>, Obj>(self),
            }),
    {
        match self {
            Obj::PySet(x) => Ok(x),
            other => Err(other),
        }
    }

    /// What the value holds, where the value is a frozen set; the value itself where it is not.
    pub fn extract_frozenset(self) -> (r: Result<Arc<ObjSet>, Self>)
        ensures
            r == (match self {
                Obj::FrozenSet(x) => Ok::<Arc<ObjSet>, Obj>(x),
                _ => Err::<Arc<ObjSet>, Obj>(self),
            }),
    {
        match self {
            Obj::FrozenSet(x) => Ok(x),
            other => Err(other),
        }
    }

    /// What the value holds, where the value is a code object; the value itself where it is not.
    pub fn extract_code(self) -> (r: Result<Arc<Code>, Self>)
        ensures
            r == (match self {
                Obj::Code(x) => Ok::<Arc<Code>, Obj>(x),
                _ => Err::<Arc<Code>, Obj>(self),
            }),
    {
        match self {
            Obj::Code(x) => Ok(x),
            other => Err(other),
        }
    }

    /// Whether the value is `None`.
    #[must_use]
    pub fn is_none(&self) -> (r: bool)
        ensures
            r == (*self is PyNone),
    {
        match self {
            Obj::PyNone => true,
            _ => false,
        }
    }

    /// Whether the value is `StopIteration`.
    #[must_use]
    pub fn is_stop_iteration(&self) -> (r: bool)
        ensures
            r == (*self is StopIteration),
    {
        match self {
            Obj::StopIteration => true,
            _ => false,
        }
    }

    /// Whether the value is a boolean.
    #[must_use]
    pub fn is_bool(&self) -> (r: bool)
        ensures
            r == (*self is Bool),
    {
        match self {
            Obj::Bool(_) => true,
            _ => false,
        }
    }

    /// Whether the value is an integer.
    #[must_use]
    pub fn is_long(&self) -> (r: bool)
        ensures
            r == (*self is Long),
    {
        match self {
            Obj::Long(_) => true,
            _ => false,
        }
    }

    /// Whether the value is a floating-point number.
    #[must_use]
    pub fn is_float(&self) -> (r: bool)
        ensures
            r == (*self is Float),
    {
        match self {
            Obj::Float(_) => true,
            _ => false,
        }
    }

    /// Whether the value is a byte string.
    #[must_use]
    pub fn is_bytes(&self) -> (r: bool)
        ensures
            r == (*self is Bytes),
    {
        match self {
            Obj::Bytes(_) => true,
            _ => false,
        }
    }

    /// Whether the value is a text.
    #[must_use]
    pub fn is_string(&self) -> (r: bool)
        ensures
            r == (*self is String),
    {
        match self {
            Obj::String(_) => true,
            _ => false,
        }
    }

    /// Whether the value is a tuple.
    #[must_use]
    pub fn is_tuple(&self) -> (r: bool)
        ensures
            r == (*self is Tuple),
    {
        match self {
            Obj::Tuple(_) => true,
            _ => false,
        }
    }

    /// Whether the value is a list.
    #[must_use]
    pub fn is_list(&self) -> (r: bool)
        ensures
            r == (*self is List),
    {
        match self {
            Obj::List(_) => true,
            _ => false,
        }
    }

    /// Whether the value is a dictionary.
    #[must_use]
    pub fn is_dict(&self) -> (r: bool)
        ensures
            r == (*self is Dict),
    {
        match self {
            Obj::Dict(_) => true,
            _ => false,
        }
    }

    /// Whether the value is a set.
    #[must_use]
    pub fn is_set(&self) -> (r: bool)
        ensures
            r == (*self is PySet),
    {
        match self {
            Obj::PySet(_) => true,
            _ => false,
        }
    }

    /// Whether the value is a frozen set.
    #[must_use]
    pub fn is_frozenset(&self) -> (r: bool)
        ensures
            r == (*self is FrozenSet),
    {
        match self {
            Obj::FrozenSet(_) => true,
            _ => false,
        }
    }

    /// Whether the value is a code object.
    #[must_use]
    pub fn is_code(&self) -> (r: bool)
        ensures
            r == (*self is Code),
    {
        match self {
            Obj::Code(_) => true,
            _ => false,
        }
    }

}

} // verus!
