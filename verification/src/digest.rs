//! SHA-256 digests.

use vstd::prelude::*;

use crate::text::{hex_string, hex_text};

verus! {

/// What `sha2::Sha256::digest` returns for `bytes`.
pub uninterp spec fn sha256_digest(bytes: Seq<u8>) -> Seq<u8>;

/// `sha2::Sha256::digest`: 32 bytes that depend on the input alone.
#[verifier::external_body]
pub(crate) fn sha256(bytes: &[u8]) -> (r: [u8; 32])
    ensures
        r@ == sha256_digest(bytes@),
{
    <sha2::Sha256 as sha2::Digest>::digest(bytes).into()
}

/// The digest of `contents` in lower-case hexadecimal digits.
pub fn sha256_hex(contents: &[u8]) -> (r: String)
    ensures
        r@ == hex_text(sha256_digest(contents@)),
        sha256_digest(contents@).len() == 32,
{
    let digest = sha256(contents);
    hex_string(digest.as_slice())
}

} // verus!
