//! The tag byte that starts every record.
use vstd::prelude::*;

verus! {

/// The bit of a tag byte that asks for the value to be kept for later
/// references.
pub const FLAG_REF: u8 = 0x80;

/// The type that a tag byte names.
#[derive(Clone, Copy, Debug, PartialEq, Eq, Structural)]
pub enum Type {
    Null,
    PyNone,
    False,
    True,
    StopIter,
    Ellipsis,
    Int,
    Int64,
    Float,
    BinaryFloat,
    Complex,
    BinaryComplex,
    Long,
    String,
    Interned,
    Ref,
    Tuple,
    List,
    Dict,
    Code,
    Unicode,
    Unknown,
    PySet,
    FrozenSet,
    Ascii,
    AsciiInterned,
    SmallTuple,
    ShortAscii,
    ShortAsciiInterned,
}

/// The type that the seven low bits of a tag byte name, if any.
pub open spec fn type_of_code(code: u8) -> Option<Type> {
    if code == 0x30 {
        Some(Type::Null)
    } else if code == 0x4e {
        Some(Type::PyNone)
    } else if code == 0x46 {
        Some(Type::False)
    } else if code == 0x54 {
        Some(Type::True)
    } else if code == 0x53 {
        Some(Type::StopIter)
    } else if code == 0x2e {
        Some(Type::Ellipsis)
    } else if code == 0x69 {
        Some(Type::Int)
    } else if code == 0x49 {
        Some(Type::Int64)
    } else if code == 0x66 {
        Some(Type::Float)
    } else if code == 0x67 {
        Some(Type::BinaryFloat)
    } else if code == 0x78 {
        Some(Type::Complex)
    } else if code == 0x79 {
        Some(Type::BinaryComplex)
    } else if code == 0x6c {
        Some(Type::Long)
    } else if code == 0x73 {
        Some(Type::String)
    } else if code == 0x74 {
        Some(Type::Interned)
    } else if code == 0x72 {
        Some(Type::Ref)
    } else if code == 0x28 {
        Some(Type::Tuple)
    } else if code == 0x5b {
        Some(Type::List)
    } else if code == 0x7b {
        Some(Type::Dict)
    } else if code == 0x63 {
        Some(Type::Code)
    } else if code == 0x75 {
        Some(Type::Unicode)
    } else if code == 0x3f {
        Some(Type::Unknown)
    } else if code == 0x3c {
        Some(Type::PySet)
    } else if code == 0x3e {
        Some(Type::FrozenSet)
    } else if code == 0x61 {
        Some(Type::Ascii)
    } else if code == 0x41 {
        Some(Type::AsciiInterned)
    } else if code == 0x29 {
        Some(Type::SmallTuple)
    } else if code == 0x7a {
        Some(Type::ShortAscii)
    } else if code == 0x5a {
        Some(Type::ShortAsciiInterned)
    } else {
        None
    }
}

/// Whether a record of this type takes its place among the references
/// before its parts are read.
pub open spec fn reserves_slot(ty: Type) -> bool {
    ty is SmallTuple || ty is Tuple || ty is List || ty is Dict || ty is PySet || ty is FrozenSet
        || ty is Code
}

impl Type {
    /// The type that `code` names, if any.
    pub fn from_u8(code: u8) -> (r: Option<Type>)
        ensures
            r == type_of_code(code),
    {
        match code {
            0x30 => Some(Type::Null),
            0x4e => Some(Type::PyNone),
            0x46 => Some(Type::False),
            0x54 => Some(Type::True),
            0x53 => Some(Type::StopIter),
            0x2e => Some(Type::Ellipsis),
            0x69 => Some(Type::Int),
            0x49 => Some(Type::Int64),
            0x66 => Some(Type::Float),
            0x67 => Some(Type::BinaryFloat),
            0x78 => Some(Type::Complex),
            0x79 => Some(Type::BinaryComplex),
            0x6c => Some(Type::Long),
            0x73 => Some(Type::String),
            0x74 => Some(Type::Interned),
            0x72 => Some(Type::Ref),
            0x28 => Some(Type::Tuple),
            0x5b => Some(Type::List),
            0x7b => Some(Type::Dict),
            0x63 => Some(Type::Code),
            0x75 => Some(Type::Unicode),
            0x3f => Some(Type::Unknown),
            0x3c => Some(Type::PySet),
            0x3e => Some(Type::FrozenSet),
            0x61 => Some(Type::Ascii),
            0x41 => Some(Type::AsciiInterned),
            0x29 => Some(Type::SmallTuple),
            0x7a => Some(Type::ShortAscii),
            0x5a => Some(Type::ShortAsciiInterned),
            _ => None,
        }
    }

    /// Whether a record of this type takes its place among the references
    /// before its parts are read.
    pub fn reserves(self) -> (r: bool)
        ensures
            r == reserves_slot(self),
    {
        match self {
            Type::SmallTuple | Type::Tuple | Type::List | Type::Dict | Type::PySet | Type::FrozenSet
            | Type::Code => true,
            _ => false,
        }
    }
}

} // verus!
