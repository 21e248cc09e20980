//! Content hashes.

use vstd::prelude::*;

verus! {

/// The BLAKE3 hash of `input`, in lower-case hexadecimal digits.
pub uninterp spec fn blake3_hex(input: Seq<u8>) -> Seq<char>;

/// `blake3::hash`, printed as `blake3::Hash` prints itself: the hash of the
/// bytes in lower-case hexadecimal digits. The same bytes give the same
/// hash.
#[verifier::external_body]
pub(crate) fn content_hash(input: &[u8]) -> (hex: String)
    ensures
        hex@ == blake3_hex(input@),
{
    blake3::hash(input).to_string()
}

} // verus!
