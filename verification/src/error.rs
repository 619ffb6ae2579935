//! Why a module could not be compiled.

use iced_x86::IcedError;
use vstd::prelude::*;
use wasmparser_nostd::BinaryReaderError;

verus! {

/// Why a module could not be compiled.
#[derive(Debug)]
pub enum Error {
    /// The module is ill-formed, or breaks a rule of validation.
    ParserError(BinaryReaderError),
    /// The encoder could not emit an instruction.
    AssemblerError(IcedError),
    /// A type that has no size on the native stack stands where a value type
    /// is needed.
    UnsupportedType,
    /// The module uses something that the compiler does not lower.
    Unsupported,
    /// The parser, the validator or the encoder returned something that does
    /// not fit what they returned before.
    Inconsistent,
}

} // verus!
