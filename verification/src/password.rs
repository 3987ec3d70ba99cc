//! Password digests: salted Argon2id, stored as lower-case hexadecimal.

use vstd::prelude::*;
use vstd::string::*;
use vstd::utf8::encode_utf8;
use crate::error::ApiError;
use crate::kdf::{argon2_digest, argon2_hash};
use crate::text::{hex_repr, to_hex};

verus! {

/// How many bytes a digest has before it is written in hexadecimal.
pub const DIGEST_LEN: u32 = 32;

/// The stored digest of `plaintext` under `salt`: the hexadecimal text of
/// its Argon2id hash; `None` where the hash cannot be computed.
pub open spec fn password_digest(plaintext: Seq<char>, salt: Seq<u8>) -> Option<Seq<char>> {
    match argon2_digest(encode_utf8(plaintext), salt, DIGEST_LEN) {
        Some(raw) => Some(hex_repr(raw)),
        None => None,
    }
}

/// Turns a plaintext password into the digest that is stored for it. The
/// digest depends on the password and the salt alone. Fails with a
/// validation error exactly where the hash cannot be computed, as for a salt
/// of fewer than eight bytes.
pub fn hash_password(plaintext: &str, salt: &[u8]) -> (r: Result<String, ApiError>)
    ensures
        match r {
            Ok(digest) => password_digest(plaintext@, salt@) == Some(digest@),
            Err(e) => e == ApiError::Validation && password_digest(plaintext@, salt@) is None,
        },
{
    match argon2_hash(plaintext.as_bytes(), salt, DIGEST_LEN) {
        Ok(raw) => Ok(to_hex(raw.as_slice())),
        Err(_) => Err(ApiError::Validation),
    }
}

/// Whether `digest` is the stored digest of `plaintext` under `salt`.
pub fn verify_password(plaintext: &str, salt: &[u8], digest: &str) -> (r: bool)
    ensures
        r == (password_digest(plaintext@, salt@) == Some(digest@)),
{
    match hash_password(plaintext, salt) {
        Ok(found) => found == digest.to_owned(),
        Err(_) => false,
    }
}

} // verus!
