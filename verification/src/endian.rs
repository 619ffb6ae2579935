//! Byte order: what the library calls in `byteorder`.

use byteorder::{ByteOrder, LittleEndian};
use vstd::bytes::spec_u64_to_le_bytes;
use vstd::prelude::*;

verus! {

/// `LittleEndian::write_u64` into a buffer of eight bytes: the bytes of
/// `value`, least significant first.
#[verifier::external_body]
pub(crate) fn le_bytes(value: u64) -> (bytes: [u8; 8])
    ensures
        bytes@ == spec_u64_to_le_bytes(value),
{
    let mut bytes = [0u8; 8];
    LittleEndian::write_u64(&mut bytes, value);
    bytes
}

} // verus!
