//! SHA-256 checksums for backup integrity.

use vstd::prelude::*;
use sha2::Digest;
use crate::text::{hex_encode, hex_encode_bytes, str_eq, lemma_hex_roundtrip};

verus! {

/// The SHA-256 digest of `data`.
pub uninterp spec fn sha256_digest(data: Seq<u8>) -> Seq<u8>;

/// Computes SHA-256 with `sha2::Sha256::digest`; the contract claims only that the
/// result is the digest of `data` and, as for every SHA-256 digest, 32 bytes long.
#[verifier::external_body]
fn sha256(data: &[u8]) -> (d: Vec<u8>)
    ensures
        d@ == sha256_digest(data@),
        d@.len() == 32,
{
    sha2::Sha256::digest(data).to_vec()
}

/// The checksum of `data`: its SHA-256 digest in lowercase hexadecimal.
pub open spec fn checksum_of(data: Seq<u8>) -> Seq<char> {
    hex_encode(sha256_digest(data))
}

/// The lowercase hexadecimal SHA-256 digest of `data`.
pub fn sha256_hex(data: &[u8]) -> (s: String)
    ensures
        s@ == checksum_of(data@),
        s@.len() == 64,
{
    let d = sha256(data);
    hex_encode_bytes(d.as_slice())
}

/// Whether `expected_hex` is the checksum of `data`.
pub fn verify(data: &[u8], expected_hex: &str) -> (ok: bool)
    ensures
        ok == (checksum_of(data@) == expected_hex@),
{
    let actual = sha256_hex(data);
    str_eq(actual.as_str(), expected_hex)
}

/// Two payloads have the same checksum exactly when they have the same SHA-256 digest:
/// the hexadecimal notation loses nothing, so a changed digest always shows.
pub proof fn lemma_checksum_distinguishes(a: Seq<u8>, b: Seq<u8>)
    ensures
        (checksum_of(a) == checksum_of(b)) <==> (sha256_digest(a) == sha256_digest(b)),
{
    lemma_hex_roundtrip(sha256_digest(a));
    lemma_hex_roundtrip(sha256_digest(b));
}

} // verus!
