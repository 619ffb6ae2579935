//! The parts of a WebAssembly module's description that the compiler reads.

use crate::error::Error;
use vstd::prelude::*;

verus! {

/// A WebAssembly value type, or one of the type codes that stand where a value
/// type may stand.
#[derive(Clone, Copy, Debug, PartialEq, Eq, Structural)]
pub enum ValueType {
    I32,
    I64,
    F32,
    F64,
    V128,
    FuncRef,
    ExternRef,
    ExnRef,
    Func,
    EmptyBlockType,
}

impl ValueType {
    /// Bytes that a value of the type takes on the native stack; `None` for a
    /// type that is not a number or a vector.
    pub open spec fn size_spec(self) -> Option<u32> {
        match self {
            ValueType::I32 => Some(4u32),
            ValueType::I64 => Some(8u32),
            ValueType::F32 => Some(4u32),
            ValueType::F64 => Some(8u32),
            ValueType::V128 => Some(16u32),
            _ => None,
        }
    }

    /// Whether the type is one of the two integer types.
    pub open spec fn is_integer(self) -> bool {
        self == ValueType::I32 || self == ValueType::I64
    }

    /// Bytes that a value of the type takes on the native stack: four for
    /// `i32` and `f32`, eight for `i64` and `f64`, sixteen for `v128`. Any
    /// other type is refused.
    pub fn encoding_size(&self) -> (r: Result<u32, Error>)
        ensures
            match self.size_spec() {
                Some(n) => r == Ok::<u32, Error>(n),
                None => r is Err && r->Err_0 is UnsupportedType,
            },
    {
        match self {
            ValueType::I32 => Ok(4),
            ValueType::I64 => Ok(8),
            ValueType::F32 => Ok(4),
            ValueType::F64 => Ok(8),
            ValueType::V128 => Ok(16),
            _ => Err(Error::UnsupportedType),
        }
    }
}

/// The signature of a function.
#[derive(Clone, Debug)]
pub struct Signature {
    pub params: Vec<ValueType>,
    pub results: Vec<ValueType>,
}

/// The description of one linear memory.
#[derive(Clone, Copy, Debug, PartialEq, Eq, Structural)]
pub struct MemoryType {
    /// Whether the memory is indexed by 64-bit integers.
    pub memory64: bool,
    /// Whether the memory may be shared between threads.
    pub shared: bool,
    /// Initial size in pages.
    pub initial: u64,
    /// Largest size in pages, where one is given.
    pub maximum: Option<u64>,
}

} // verus!
