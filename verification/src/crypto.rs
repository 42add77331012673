//! Trusted bindings to the cryptographic and encoding crates.
//!
//! Each wrapper makes exactly one outside call. Digests are deterministic
//! functions of their input and are given names; of random values only
//! shape is stated.

use vstd::prelude::*;

use base64::prelude::BASE64_STANDARD;
use base64::Engine;
use argon2::password_hash::{PasswordHasher, PasswordVerifier};
use rand::{RngCore, SeedableRng};
use sha1::Digest;

verus! {

/// Error of a failed outside call.
#[derive(Debug)]
pub enum CryptoError {
    Failed,
}

/// The SHA-1 digest of a byte sequence.
pub uninterp spec fn sha1_of(data: Seq<u8>) -> Seq<u8>;

/// The SHA-256 digest of a byte sequence.
pub uninterp spec fn sha256_of(data: Seq<u8>) -> Seq<u8>;

/// The standard base64 encoding of a byte sequence.
pub uninterp spec fn b64_of(data: Seq<u8>) -> Seq<char>;

/// The standard base64 decoding of a character sequence, `None` on
/// invalid input.
pub uninterp spec fn b64_decode_of(s: Seq<char>) -> Option<Seq<u8>>;

/// Whether the argon2 crate verifies the password against the PHC string.
pub uninterp spec fn argon2_verifies(password: Seq<u8>, phc: Seq<char>) -> bool;

/// Whether the text is a syntactically valid PHC string.
pub uninterp spec fn phc_valid(s: Seq<char>) -> bool;

/// Relies on sha1::Sha1::digest: 20 bytes, a function of the input alone.
#[verifier::external_body]
pub fn sha1_digest(data: &Vec<u8>) -> (r: Vec<u8>)
    ensures
        r@ == sha1_of(data@),
        r@.len() == 20,
{
    sha1::Sha1::digest(data.as_slice()).to_vec()
}

/// Relies on sha2::Sha256::digest: 32 bytes, a function of the input
/// alone.
#[verifier::external_body]
pub fn sha256_digest(data: &Vec<u8>) -> (r: Vec<u8>)
    ensures
        r@ == sha256_of(data@),
        r@.len() == 32,
{
    sha2::Sha256::digest(data.as_slice()).to_vec()
}

/// Relies on base64's STANDARD engine: the encoding is a function of the
/// bytes alone, uses no `$`, and decodes back to the input.
#[verifier::external_body]
pub fn b64_encode(data: &Vec<u8>) -> (r: String)
    ensures
        r@ == b64_of(data@),
        b64_decode_of(r@) == Some(data@),
        forall|k: int| 0 <= k < r@.len() ==> r@[k] != '$' && r@[k] != ',',
{
    BASE64_STANDARD.encode(data.as_slice())
}

/// Relies on base64's STANDARD engine: decoding is a function of the
/// text alone.
#[verifier::external_body]
pub fn b64_decode(s: &str) -> (r: Result<Vec<u8>, CryptoError>)
    ensures
        match r {
            Ok(v) => b64_decode_of(s@) == Some(v@) && (s@.len() == 0 ==> v@.len() == 0),
            Err(_) => b64_decode_of(s@) is None && s@.len() != 0,
        },
{
    match BASE64_STANDARD.decode(s.as_bytes()) {
        Ok(v) => Ok(v),
        Err(_) => Err(CryptoError::Failed),
    }
}

/// Relies on rand_chacha's ChaCha20 generator seeded from the operating
/// system: 16 bytes; nothing is promised of their values.
#[verifier::external_body]
pub fn random_bytes_16() -> (r: Vec<u8>)
    ensures
        r@.len() == 16,
{
    let mut rng = rand_chacha::ChaCha20Rng::from_entropy();
    let mut b = [0u8; 16];
    rng.fill_bytes(&mut b);
    b.to_vec()
}

/// Relies on uuid::Uuid::new_v4 and its hyphenated form: 36 characters of
/// lowercase hex and hyphens; nothing is promised of their values.
#[verifier::external_body]
pub fn generate_resource() -> (r: String)
    ensures
        r@.len() == 36,
        forall|k: int|
            0 <= k < r@.len() ==> (#[trigger] r@[k] == '-' || ('0' <= r@[k] && r@[k] <= '9') || (
            'a' <= r@[k] && r@[k] <= 'f')),
{
    uuid::Uuid::new_v4().to_string()
}

/// Relies on argon2's hash_password with a fresh random salt: the PHC
/// string verifies against the password; nothing more is promised of the
/// random salt inside it.
#[verifier::external_body]
pub fn argon2_register(password: &Vec<u8>) -> (r: Result<String, CryptoError>)
    ensures
        match r {
            Ok(s) => argon2_verifies(password@, s@) && phc_valid(s@),
            Err(_) => true,
        },
{
    match argon2::Argon2::default().hash_password(password.as_slice()) {
        Ok(h) => Ok(h.to_string()),
        Err(_) => Err(CryptoError::Failed),
    }
}

/// Relies on the PHC-string parser argon2 re-exports: acceptance is a
/// function of the text alone.
#[verifier::external_body]
pub fn phc_parse_ok(s: &str) -> (r: bool)
    ensures
        r == phc_valid(s@),
{
    argon2::password_hash::phc::PasswordHash::new(s).is_ok()
}

/// Relies on argon2's verify_password: acceptance is a function of the
/// password and the PHC string.
#[verifier::external_body]
pub fn argon2_check(password: &Vec<u8>, phc: &str) -> (r: bool)
    ensures
        r == argon2_verifies(password@, phc@),
{
    argon2::Argon2::default().verify_password(password.as_slice(), phc).is_ok()
}

/// Relies on str::from_utf8: the decoding of valid UTF-8 bytes.
#[verifier::external_body]
pub fn utf8_to_string(v: &Vec<u8>) -> (r: Result<String, CryptoError>)
    ensures
        match r {
            Ok(s) => vstd::utf8::valid_utf8(v@) && s@ == vstd::utf8::decode_utf8(v@)
                && vstd::utf8::encode_utf8(s@) == v@,
            Err(_) => !vstd::utf8::valid_utf8(v@),
        },
{
    match core::str::from_utf8(v.as_slice()) {
        Ok(s) => Ok(s.to_owned()),
        Err(_) => Err(CryptoError::Failed),
    }
}

} // verus!
