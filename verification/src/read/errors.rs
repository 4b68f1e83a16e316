//! Why a read failed.
use vstd::prelude::*;
use crate::object::Obj;
use crate::value::Value;

verus! {

/// What went wrong with the source of bytes.
#[derive(Clone, Copy, Debug, PartialEq, Eq, Structural)]
pub enum IoErrorKind {
    /// The bytes ended inside a record.
    UnexpectedEof,
}

/// Why a read failed.
#[derive(Debug)]
pub enum Error {
    /// A tag byte names no type.
    InvalidType { spec: u8 },
    /// Records nest deeper than the limit.
    RecursionLimitExceeded,
    /// A digit of an integer does not fit in 15 bits.
    DigitOutOfRange { digit: u16 },
    /// The last digit of an integer is 0.
    UnnormalizedLong,
    /// The null tag stands where a value must.
    UnexpectedNull,
    /// A value that cannot be a key was used as one.
    Unhashable(Obj),
    /// A field of a code object holds a value of the wrong type.
    TypeError(Obj),
    /// A reference names no value that was read completely.
    InvalidRef,
    /// The source of bytes failed.
    Io(IoErrorKind),
    /// The bytes of a text are not valid UTF-8.
    Utf8,
    /// The text of a floating-point number is not a number.
    ParseFloat,
}

/// The model of a failure.
pub enum ErrorValue {
    InvalidType { spec: u8 },
    RecursionLimitExceeded,
    DigitOutOfRange { digit: u16 },
    UnnormalizedLong,
    UnexpectedNull,
    Unhashable(Value),
    TypeError(Value),
    InvalidRef,
    Io(IoErrorKind),
    Utf8,
    ParseFloat,
}

impl View for Error {
    type V = ErrorValue;

    open spec fn view(&self) -> ErrorValue {
        match self {
            Error::InvalidType { spec } => ErrorValue::InvalidType { spec: *spec },
            Error::RecursionLimitExceeded => ErrorValue::RecursionLimitExceeded,
            Error::DigitOutOfRange { digit } => ErrorValue::DigitOutOfRange { digit: *digit },
            Error::UnnormalizedLong => ErrorValue::UnnormalizedLong,
            Error::UnexpectedNull => ErrorValue::UnexpectedNull,
            Error::Unhashable(o) => ErrorValue::Unhashable(o@),
            Error::TypeError(o) => ErrorValue::TypeError(o@),
            Error::InvalidRef => ErrorValue::InvalidRef,
            Error::Io(kind) => ErrorValue::Io(*kind),
            Error::Utf8 => ErrorValue::Utf8,
            Error::ParseFloat => ErrorValue::ParseFloat,
        }
    }
}

/// The failure of a source that ended too early.
pub open spec fn eof() -> ErrorValue {
    ErrorValue::Io(IoErrorKind::UnexpectedEof)
}

} // verus!
