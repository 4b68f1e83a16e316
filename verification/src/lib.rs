//! A decoder for the binary `marshal` format of CPython 3.

pub mod bigint;
pub mod depth;
pub mod flags;
pub mod key_laws;
pub mod object;
pub mod read;
pub mod std_specs;
pub mod utils;
pub mod value;

pub use depth::Depth;
pub use flags::CodeFlags;
pub use object::{Code, Obj, ObjHashable, ObjMap, ObjSet};
pub use value::ComplexBits;

