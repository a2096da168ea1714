//! Content addressing.
//!
//! Blocks, transactions and the genesis configuration identify themselves by
//! the SHA-1 digest of their canonical text form.  The digest itself is
//! computed by the `sha1` crate; the library only names its result.

use vstd::prelude::*;

verus! {

/// The lowercase hexadecimal SHA-1 digest of the UTF-8 bytes of a text,
/// a function of that text alone.
pub uninterp spec fn sha1_hex_of(s: Seq<char>) -> Seq<char>;

/// Relies on sha1's `Sha1::from` and `Digest`'s display form: hashing the
/// text's UTF-8 bytes yields a 160-bit digest printed as exactly 40
/// hexadecimal characters, determined by the input alone.
#[verifier::external_body]
pub(crate) fn sha1_hex(s: &str) -> (r: String)
    ensures
        r@ == sha1_hex_of(s@),
        r@.len() == 40,
{
    format!("{}", sha1::Sha1::from(s.as_bytes()).digest())
}

} // verus!
