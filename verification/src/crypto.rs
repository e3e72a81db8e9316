//! AES-256-GCM encryption of backup files.
//!
//! An encrypted backup is the base64 text of a fresh 12-byte nonce followed by the
//! AES-256-GCM ciphertext (with its 16-byte tag) of the plaintext.

use vstd::prelude::*;
use aes_gcm::aead::{Aead, KeyInit};
use base64::Engine;
use crate::text::{hex_decode, hex_decode_str};
use vstd::utf8::encode_utf8;
use vstd::string::*;

verus! {

/// The AES-256-GCM ciphertext, tag included, of `plaintext` under `key` and `nonce`.
pub uninterp spec fn aes256gcm_seal(key: Seq<u8>, nonce: Seq<u8>, plaintext: Seq<u8>) -> Seq<u8>;

/// The AES-256-GCM opening of `ciphertext` under `key` and `nonce`: the plaintext when
/// the tag authenticates, `None` otherwise.
pub uninterp spec fn aes256gcm_open(key: Seq<u8>, nonce: Seq<u8>, ciphertext: Seq<u8>) -> Option<Seq<u8>>;

/// The character (as an ASCII byte) of the standard base64 alphabet for a six-bit value:
/// `A`–`Z`, `a`–`z`, `0`–`9`, `+`, `/`.
pub open spec fn base64_symbol(v: int) -> u8 {
    if v < 26 {
        (65 + v) as u8
    } else if v < 52 {
        (71 + v) as u8
    } else if v < 62 {
        (v - 4) as u8
    } else if v == 62 {
        43u8
    } else {
        47u8
    }
}

/// The four characters of one group of one to three bytes: the bytes read as a 24-bit
/// number (missing bytes as zero) in six-bit pieces, `=` standing for each missing byte.
pub open spec fn base64_group(g: Seq<u8>) -> Seq<u8> {
    let n = (g[0] as int) * 65536 + (if g.len() > 1 {
        (g[1] as int) * 256
    } else {
        0
    }) + (if g.len() > 2 {
        g[2] as int
    } else {
        0
    });
    seq![
        base64_symbol(n / 262144),
        base64_symbol((n / 4096) % 64),
        if g.len() > 1 {
            base64_symbol((n / 64) % 64)
        } else {
            61u8
        },
        if g.len() > 2 {
            base64_symbol(n % 64)
        } else {
            61u8
        },
    ]
}

/// The standard, padded base64 text (as ASCII bytes) of `data`: four characters for each
/// group of three bytes, the last group padded with `=`.
pub open spec fn base64_encode(data: Seq<u8>) -> Seq<u8>
    decreases data.len(),
{
    if data.len() == 0 {
        Seq::empty()
    } else if data.len() <= 3 {
        base64_group(data)
    } else {
        base64_group(data.take(3)) + base64_encode(data.skip(3))
    }
}

/// Base64 text has four characters for every started group of three bytes.
pub proof fn lemma_base64_len(data: Seq<u8>)
    ensures
        base64_encode(data).len() == 4 * ((data.len() + 2) / 3),
    decreases data.len(),
{
    if data.len() > 3 {
        lemma_base64_len(data.skip(3));
    }
}

/// The bytes that standard, padded base64 `text` stands for, `None` when it is not such text.
pub uninterp spec fn base64_decode(text: Seq<u8>) -> Option<Seq<u8>>;

/// The largest plaintext AES-GCM accepts, in bytes (2^36).
pub open spec fn aes_gcm_max_plaintext() -> int {
    68719476736
}

/// A fresh nonce from `rand::random`; nothing is claimed of its bytes.
#[verifier::external_body]
fn random_nonce() -> (n: [u8; 12]) {
    rand::random()
}

/// A fresh key from `rand::random`; nothing is claimed of its bytes.
#[verifier::external_body]
pub(crate) fn random_key() -> (k: [u8; 32]) {
    rand::random()
}

/// Encrypts with `Aes256Gcm::encrypt` (no associated data). The contract claims what the
/// `aes-gcm` source and the AEAD documentation show: it fails exactly for plaintexts
/// longer than 2^36 bytes; otherwise the ciphertext is the plaintext's length plus the
/// 16-byte tag, and opening it under the same key and nonce gives the plaintext back.
#[verifier::external_body]
fn aes_seal(key: &[u8; 32], nonce: &[u8], plaintext: &[u8]) -> (r: Option<Vec<u8>>)
    requires
        nonce@.len() == 12,
    ensures
        r is Some <==> plaintext@.len() <= aes_gcm_max_plaintext(),
        r matches Some(c) ==> c@ == aes256gcm_seal(key@, nonce@, plaintext@),
        r matches Some(c) ==> c@.len() == plaintext@.len() + 16,
        r matches Some(c) ==> aes256gcm_open(key@, nonce@, c@) == Some(plaintext@),
{
    let cipher = aes_gcm::Aes256Gcm::new(aes_gcm::Key::<aes_gcm::Aes256Gcm>::from_slice(key));
    cipher.encrypt(aes_gcm::Nonce::from_slice(nonce), plaintext).ok()
}

/// Decrypts with `Aes256Gcm::decrypt` (no associated data); the result is named, not described.
#[verifier::external_body]
fn aes_open(key: &[u8; 32], nonce: &[u8], ciphertext: &[u8]) -> (r: Option<Vec<u8>>)
    requires
        nonce@.len() == 12,
    ensures
        match r {
            Some(p) => aes256gcm_open(key@, nonce@, ciphertext@) == Some(p@),
            None => aes256gcm_open(key@, nonce@, ciphertext@) is None,
        },
{
    let cipher = aes_gcm::Aes256Gcm::new(aes_gcm::Key::<aes_gcm::Aes256Gcm>::from_slice(key));
    cipher.decrypt(aes_gcm::Nonce::from_slice(nonce), ciphertext).ok()
}

/// Encodes with the `STANDARD` base64 engine. The contract states the result (by its
/// UTF-8 bytes, which are ASCII) as standard padded base64 of `data` and claims the
/// documented round trip: decoding it gives `data` back. Inputs whose encoded length
/// would overflow `usize` panic there and are left out.
#[verifier::external_body]
pub(crate) fn b64_encode(data: &[u8]) -> (r: String)
    requires
        data@.len() <= 3 * (usize::MAX / 4),
    ensures
        encode_utf8(r@) == base64_encode(data@),
        base64_decode(encode_utf8(r@)) == Some(data@),
{
    base64::engine::general_purpose::STANDARD.encode(data)
}

/// Decodes with the `STANDARD` base64 engine; the result is named, not described.
#[verifier::external_body]
fn b64_decode(text: &[u8]) -> (r: Option<Vec<u8>>)
    ensures
        match r {
            Some(d) => base64_decode(text@) == Some(d@),
            None => base64_decode(text@) is None,
        },
{
    base64::engine::general_purpose::STANDARD.decode(text).ok()
}

/// Why a backup could not be encrypted or decrypted.
#[derive(Clone, Copy, Debug, PartialEq, Eq, Structural)]
pub enum CryptoError {
    /// The plaintext is longer than AES-GCM accepts.
    EncryptionFailed,
    /// The encrypted file is not base64 text.
    InvalidEncoding,
    /// The decoded file holds no ciphertext after the nonce.
    TooShort,
    /// The ciphertext does not authenticate under the key.
    DecryptionFailed,
}

/// How an encrypted backup decrypts under `key`.
pub open spec fn spec_decrypt(encoded: Seq<u8>, key: Seq<u8>) -> Result<Seq<u8>, CryptoError> {
    match base64_decode(encoded) {
        None => Err(CryptoError::InvalidEncoding),
        Some(combined) => if combined.len() <= 12 {
            Err(CryptoError::TooShort)
        } else {
            match aes256gcm_open(key, combined.take(12), combined.skip(12)) {
                Some(p) => Ok(p),
                None => Err(CryptoError::DecryptionFailed),
            }
        },
    }
}

/// The model of a decryption or encryption outcome.
pub open spec fn bytes_outcome(r: Result<Vec<u8>, CryptoError>) -> Result<Seq<u8>, CryptoError> {
    match r {
        Ok(v) => Ok(v@),
        Err(e) => Err(e),
    }
}

/// Encrypts `plaintext` under `key` with the given `nonce`; the result is
/// `base64(nonce || ciphertext)`, whose decoding is the 12-byte nonce followed by the
/// ciphertext and its 16-byte tag. It fails only when the plaintext is longer than AES-GCM
/// accepts; what it produces is longer than the plaintext (so never equal to it) and
/// decrypts under `key` to the plaintext.
pub fn encrypt_with_nonce(plaintext: &[u8], key: &[u8; 32], nonce: &[u8; 12]) -> (r: Result<Vec<u8>, CryptoError>)
    requires
        plaintext@.len() + 28 <= 3 * (usize::MAX / 4),
    ensures
        r is Err <==> plaintext@.len() > aes_gcm_max_plaintext(),
        r matches Err(e) ==> e == CryptoError::EncryptionFailed,
        r matches Ok(out) ==> out@ == base64_encode(nonce@ + aes256gcm_seal(key@, nonce@, plaintext@)),
        r matches Ok(out) ==> base64_decode(out@) == Some(nonce@ + aes256gcm_seal(key@, nonce@, plaintext@)),
        r matches Ok(out) ==> (nonce@ + aes256gcm_seal(key@, nonce@, plaintext@)).len() == plaintext@.len() + 28,
        r matches Ok(out) ==> spec_decrypt(out@, key@) == Ok::<Seq<u8>, CryptoError>(plaintext@),
        r matches Ok(out) ==> out@.len() == 4 * ((plaintext@.len() + 30) / 3) && out@ != plaintext@,
{
    let nonce_bytes = nonce.as_slice();
    let mut combined: Vec<u8> = Vec::new();
    for i in 0..12
        invariant
            nonce_bytes@.len() == 12,
            nonce_bytes@ == nonce@,
            combined@ == nonce_bytes@.take(i as int),
    {
        combined.push(nonce_bytes[i]);
        assert(combined@ =~= nonce_bytes@.take(i + 1));
    }
    assert(combined@ =~= nonce_bytes@);
    let mut ciphertext = match aes_seal(key, nonce_bytes, plaintext) {
        Some(c) => c,
        None => {
            return Err(CryptoError::EncryptionFailed);
        },
    };
    let ghost n = combined@;
    let ghost c = ciphertext@;
    combined.append(&mut ciphertext);
    let text = b64_encode(combined.as_slice());
    let out = text.as_str().as_bytes_vec();
    proof {
        assert(combined@ == n + c);
        assert(combined@.take(12) =~= n);
        assert(combined@.skip(12) =~= c);
        lemma_base64_len(combined@);
    }
    Ok(out)
}

/// Encrypts `plaintext` under `key` with a fresh random nonce (see [`encrypt_with_nonce`]):
/// the result is `base64(nonce || ciphertext)` for some 12-byte nonce. It fails only when
/// the plaintext is longer than AES-GCM accepts; what it produces decodes to plaintext
/// length plus 28 bytes, is longer than the plaintext (so never equal to it), and decrypts
/// under `key` to the plaintext.
pub fn encrypt(plaintext: &[u8], key: &[u8; 32]) -> (r: Result<Vec<u8>, CryptoError>)
    requires
        plaintext@.len() + 28 <= 3 * (usize::MAX / 4),
    ensures
        r is Err <==> plaintext@.len() > aes_gcm_max_plaintext(),
        r matches Err(e) ==> e == CryptoError::EncryptionFailed,
        r matches Ok(out) ==> exists|nonce: Seq<u8>|
            nonce.len() == 12 && out@ == base64_encode(nonce + aes256gcm_seal(key@, nonce, plaintext@))
                && base64_decode(out@) == Some(nonce + aes256gcm_seal(key@, nonce, plaintext@)),
        r matches Ok(out) ==> base64_decode(out@) matches Some(c) && c.len() == plaintext@.len() + 28,
        r matches Ok(out) ==> spec_decrypt(out@, key@) == Ok::<Seq<u8>, CryptoError>(plaintext@),
        r matches Ok(out) ==> out@.len() == 4 * ((plaintext@.len() + 30) / 3) && out@ != plaintext@,
{
    let nonce = random_nonce();
    encrypt_with_nonce(plaintext, key, &nonce)
}

/// Decrypts a backup produced by [`encrypt`] (see [`spec_decrypt`]).
pub fn decrypt(encoded: &[u8], key: &[u8; 32]) -> (r: Result<Vec<u8>, CryptoError>)
    ensures
        bytes_outcome(r) == spec_decrypt(encoded@, key@),
{
    let combined = match b64_decode(encoded) {
        Some(c) => c,
        None => {
            return Err(CryptoError::InvalidEncoding);
        },
    };
    if combined.len() <= 12 {
        return Err(CryptoError::TooShort);
    }
    let (nonce, ciphertext) = combined.as_slice().split_at(12);
    assert(nonce@ =~= combined@.take(12));
    assert(ciphertext@ =~= combined@.skip(12));
    match aes_open(key, nonce, ciphertext) {
        Some(p) => Ok(p),
        None => Err(CryptoError::DecryptionFailed),
    }
}

impl CryptoError {
    /// The human-readable description of this failure.
    pub open spec fn spec_message(&self) -> Seq<char> {
        match self {
            CryptoError::EncryptionFailed => "Encryption failed: aead::Error"@,
            CryptoError::InvalidEncoding => "Failed to base64-decode encrypted backup"@,
            CryptoError::TooShort => "Ciphertext too short"@,
            CryptoError::DecryptionFailed => "Decryption failed (wrong key?): aead::Error"@,
        }
    }

    /// The human-readable description of this failure.
    pub fn message(&self) -> (s: String)
        ensures
            s@ == self.spec_message(),
    {
        match self {
            CryptoError::EncryptionFailed => crate::text::owned("Encryption failed: aead::Error"),
            CryptoError::InvalidEncoding => crate::text::owned("Failed to base64-decode encrypted backup"),
            CryptoError::TooShort => crate::text::owned("Ciphertext too short"),
            CryptoError::DecryptionFailed => crate::text::owned("Decryption failed (wrong key?): aead::Error"),
        }
    }
}

/// Why an encryption key could not be read.
#[derive(Clone, Copy, Debug, PartialEq, Eq, Structural)]
pub enum KeyError {
    /// No key was given where one is needed.
    KeyRequired,
    /// The key is not hexadecimal text.
    InvalidHex,
    /// The key is not 32 bytes (64 hexadecimal digits) long.
    WrongLength,
}

impl KeyError {
    /// The human-readable description of this failure.
    pub open spec fn spec_message(&self) -> Seq<char> {
        match self {
            KeyError::KeyRequired => "--key required for decryption"@,
            KeyError::InvalidHex => "Invalid hex key"@,
            KeyError::WrongLength => "Key must be 32 bytes (64 hex chars)"@,
        }
    }

    /// The human-readable description of this failure.
    pub fn message(&self) -> (s: String)
        ensures
            s@ == self.spec_message(),
    {
        match self {
            KeyError::KeyRequired => crate::text::owned("--key required for decryption"),
            KeyError::InvalidHex => crate::text::owned("Invalid hex key"),
            KeyError::WrongLength => crate::text::owned("Key must be 32 bytes (64 hex chars)"),
        }
    }
}

/// How a hexadecimal key reads: 32 bytes, or the reason it is not a key.
pub open spec fn spec_key_from_hex(text: Seq<char>) -> Result<Seq<u8>, KeyError> {
    match hex_decode(text) {
        None => Err(KeyError::InvalidHex),
        Some(b) => if b.len() == 32 {
            Ok(b)
        } else {
            Err(KeyError::WrongLength)
        },
    }
}

/// Reads a 32-byte key written as 64 hexadecimal digits.
pub fn key_from_hex(text: &str) -> (r: Result<[u8; 32], KeyError>)
    ensures
        match r {
            Ok(k) => spec_key_from_hex(text@) == Ok::<Seq<u8>, KeyError>(k@),
            Err(e) => spec_key_from_hex(text@) == Err::<Seq<u8>, KeyError>(e),
        },
{
    let bytes = match hex_decode_str(text) {
        Some(b) => b,
        None => {
            return Err(KeyError::InvalidHex);
        },
    };
    if bytes.len() != 32 {
        return Err(KeyError::WrongLength);
    }
    let mut key = [0u8; 32];
    for i in 0..32
        invariant
            bytes@.len() == 32,
            forall|j: int| 0 <= j < i ==> key@[j] == bytes@[j],
    {
        key[i] = bytes[i];
    }
    assert(key@ =~= bytes@);
    Ok(key)
}

} // verus!
