//! Reading numbers out of bytes.
//!
//! The reading is that of the `byteorder` crate. Nothing here is proved: the
//! function states what the crate's own source shows of the call it makes.

use vstd::prelude::*;
use byteorder::{BigEndian, ReadBytesExt};
use crate::bytes::be_value;

verus! {

/// `std::io::Error`: why reading failed. Nothing is told of what it holds.
#[verifier::external_type_specification]
#[verifier::external_body]
pub struct ExIoError(std::io::Error);

/// `ReadBytesExt::read_u64` in big-endian order, on a cursor over `bytes`:
/// the number that the first eight bytes spell, most significant byte
/// first. It fails on fewer than eight bytes.
#[verifier::external_body]
pub(crate) fn read_u64_be(bytes: &[u8]) -> (r: Result<u64, std::io::Error>)
    ensures
        r is Ok <==> bytes@.len() >= 8,
        r matches Ok(v) ==> v == be_value(bytes@.take(8)),
{
    std::io::Cursor::new(bytes).read_u64::<BigEndian>()
}

} // verus!
