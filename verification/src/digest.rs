//! SHA-256 identities.

use crate::text::{all_hex, hex, hex_string, lemma_hex_shape};
use sha2::Digest;
use vstd::prelude::*;
use vstd::utf8::encode_utf8;

verus! {

/// The SHA-256 digest of `data`.
pub uninterp spec fn sha256(data: Seq<u8>) -> Seq<u8>;

/// Calls `sha2::Sha256::digest`. Trusted: the result is the SHA-256 digest of `data`,
/// which has 32 bytes.
#[verifier::external_body]
fn sha256_digest(data: &[u8]) -> (r: Vec<u8>)
    ensures
        r@ == sha256(data@),
        r@.len() == 32,
{
    sha2::Sha256::digest(data).to_vec()
}

/// The identity that a text hashes to: the lower-case hexadecimal form of the SHA-256
/// digest of its UTF-8 encoding.
pub open spec fn sha_of(text: Seq<char>) -> Seq<char> {
    hex(sha256(encode_utf8(text)))
}

/// Whether `s` has the shape of an identity: 64 hexadecimal digits in lower case.
pub open spec fn is_sha(s: Seq<char>) -> bool {
    s.len() == 64 && all_hex(s)
}

/// Hashes `text` to its identity.
pub fn sha_hex(text: &str) -> (r: String)
    ensures
        r@ == sha_of(text@),
        is_sha(r@),
{
    let digest = sha256_digest(text.as_bytes());
    proof {
        lemma_hex_shape(digest@);
    }
    hex_string(&digest)
}

} // verus!
