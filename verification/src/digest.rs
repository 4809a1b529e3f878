//! Content addressing via the BLAKE3 digest: cache keys for fetched
//! source lists and the checksum kept in an installation record.

use vstd::prelude::*;

verus! {

/// A lowercase hexadecimal digit.
pub open spec fn is_lower_hex_char(c: char) -> bool {
    ('0' <= c && c <= '9') || ('a' <= c && c <= 'f')
}

/// The lowercase hexadecimal BLAKE3 digest of a byte sequence. Named,
/// not defined here: only the blake3 crate computes it, as a pure
/// function of the input bytes.
pub uninterp spec fn blake3_hex_of(data: Seq<u8>) -> Seq<char>;

/// Relies on blake3::hash and blake3::Hash::to_hex: the digest depends
/// on the input bytes alone and is rendered as exactly 64 lowercase
/// hexadecimal characters.
#[verifier::external_body]
pub(crate) fn blake3_hex(data: &[u8]) -> (r: String)
    ensures
        r@ == blake3_hex_of(data@),
        r@.len() == 64,
        forall|i: int| 0 <= i < r@.len() ==> is_lower_hex_char(#[trigger] r@[i]),
{
    blake3::hash(data).to_hex().to_string()
}

} // verus!
