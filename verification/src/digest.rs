//! SHA-384 blob identities.

use vstd::prelude::*;
use crate::hexcodec::{hex_encode, hex_lower};
use sha2::Digest;

verus! {

/// The SHA-384 digest of a byte string.
pub uninterp spec fn sha384(data: Seq<u8>) -> Seq<u8>;

/// Calls `sha2::Sha384::digest`: the 48-byte SHA-384 digest of `data`.
#[verifier::external_body]
pub(crate) fn sha384_digest(data: &[u8]) -> (res: Vec<u8>)
    ensures
        res@ == sha384(data@),
        res@.len() == 48,
{
    sha2::Sha384::digest(data).to_vec()
}

/// The identity of a blob: the SHA-384 digest of its bytes as lowercase hex.
pub open spec fn blob_hash_of(data: Seq<u8>) -> Seq<char> {
    hex_lower(sha384(data))
}

/// Lowercase hex of the SHA-384 digest of `data`.
pub fn sha384_hex(data: &[u8]) -> (res: String)
    ensures
        res@ == blob_hash_of(data@),
        res@.len() == 96,
{
    let d = sha384_digest(data);
    hex_encode(d.as_slice())
}

} // verus!
