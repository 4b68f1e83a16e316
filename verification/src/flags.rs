//! The flag bits of a code object.
use vstd::prelude::*;

verus! {

pub const OPTIMIZED: u32 = 0x1;
pub const NEWLOCALS: u32 = 0x2;
pub const VARARGS: u32 = 0x4;
pub const VARKEYWORDS: u32 = 0x8;
pub const NESTED: u32 = 0x10;
pub const GENERATOR: u32 = 0x20;
pub const NOFREE: u32 = 0x40;
pub const COROUTINE: u32 = 0x80;
pub const ITERABLE_COROUTINE: u32 = 0x100;
pub const ASYNC_GENERATOR: u32 = 0x200;
pub const GENERATOR_ALLOWED: u32 = 0x1000;
pub const FUTURE_DIVISION: u32 = 0x2000;
pub const FUTURE_ABSOLUTE_IMPORT: u32 = 0x4000;
pub const FUTURE_WITH_STATEMENT: u32 = 0x8000;
pub const FUTURE_PRINT_FUNCTION: u32 = 0x10000;
pub const FUTURE_UNICODE_LITERALS: u32 = 0x20000;
pub const FUTURE_BARRY_AS_BDFL: u32 = 0x40000;
pub const FUTURE_GENERATOR_STOP: u32 = 0x80000;
pub const FUTURE_ANNOTATIONS: u32 = 0x100000;

/// Every bit that has a name above.
pub const ALL_FLAGS: u32 = 0x1ff3ff;

/// A set of code flags. Only named bits are ever held.
#[derive(Clone, Copy, Debug, PartialEq, Eq, Structural)]
pub struct CodeFlags {
    bits: u32,
}

impl CodeFlags {
    /// The bits of this set.
    pub closed spec fn spec_bits(&self) -> u32 {
        self.bits
    }

    #[verifier::type_invariant]
    spec fn only_named_bits(&self) -> bool {
        self.bits & !ALL_FLAGS == 0
    }

    /// The set with no flag.
    pub fn empty() -> (r: Self)
        ensures
            r.spec_bits() == 0,
    {
        assert(0u32 & !0x1ff3ffu32 == 0) by (bit_vector);
        CodeFlags { bits: 0 }
    }

    /// The set with every named flag.
    pub fn all() -> (r: Self)
        ensures
            r.spec_bits() == ALL_FLAGS,
    {
        assert(0x1ff3ffu32 & !0x1ff3ffu32 == 0) by (bit_vector);
        CodeFlags { bits: ALL_FLAGS }
    }

    /// The bits of this set; none of them is outside `ALL_FLAGS`.
    pub fn bits(&self) -> (r: u32)
        ensures
            r == self.spec_bits(),
            r & !ALL_FLAGS == 0,
    {
        proof {
            use_type_invariant(self);
        }
        self.bits
    }

    /// The set of the named bits among `bits`; the others are dropped.
    pub fn from_bits_truncate(bits: u32) -> (r: Self)
        ensures
            r.spec_bits() == bits & ALL_FLAGS,
    {
        assert((bits & 0x1ff3ffu32) & !0x1ff3ffu32 == 0) by (bit_vector);
        CodeFlags { bits: bits & ALL_FLAGS }
    }

    /// The set of exactly `bits`, if all of them are named.
    pub fn from_bits(bits: u32) -> (r: Option<Self>)
        ensures
            r is Some <==> bits & !ALL_FLAGS == 0,
            r matches Some(f) ==> f.spec_bits() == bits,
    {
        if bits & !ALL_FLAGS == 0 {
            Some(CodeFlags { bits })
        } else {
            None
        }
    }

    /// Whether every flag of `other` is in this set.
    pub fn contains(&self, other: CodeFlags) -> (r: bool)
        ensures
            r == (self.spec_bits() & other.spec_bits() == other.spec_bits()),
    {
        self.bits & other.bits == other.bits
    }

    /// The flags that are in either set.
    pub fn union(&self, other: CodeFlags) -> (r: Self)
        ensures
            r.spec_bits() == self.spec_bits() | other.spec_bits(),
    {
        proof {
            use_type_invariant(self);
            use_type_invariant(&other);
        }
        let a: u32 = self.bits;
        let b: u32 = other.bits;
        assert((a | b) & !0x1ff3ffu32 == 0) by (bit_vector)
            requires
                a & !0x1ff3ffu32 == 0,
                b & !0x1ff3ffu32 == 0,
        ;
        CodeFlags { bits: a | b }
    }
}

} // verus!
