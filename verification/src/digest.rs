//! The hash by which the contents of a file are known.

use crate::text::{hex, hex_text};
use sha2::Digest;
use sha2::Sha256;
use vstd::prelude::*;

verus! {

/// The SHA-256 digest of the bytes.
pub uninterp spec fn sha256_digest(bytes: Seq<u8>) -> Seq<u8>;

/// `Sha256::digest`: the SHA-256 digest of the bytes, which is 32 bytes long.
#[verifier::external_body]
pub(crate) fn sha256(bytes: &[u8]) -> (digest: Vec<u8>)
    ensures
        digest@ == sha256_digest(bytes@),
        digest@.len() == 32,
{
    Sha256::digest(bytes).to_vec()
}

/// The hash of a file's contents: its SHA-256 digest in hexadecimal.
pub fn calculate_file_hash(content: &[u8]) -> (hash: String)
    ensures
        hash@ == hex(sha256_digest(content@)),
        hash@.len() == 64,
{
    let digest: Vec<u8> = sha256(content);
    hex_text(&digest)
}

} // verus!
