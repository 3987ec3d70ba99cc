//! The boundary to the `argon2` crate.
//!
//! Nothing in this file is proved: the wrapper makes the outside call, and
//! its contract only gives the outcome a name.

use vstd::prelude::*;

verus! {

/// The error type of the `argon2` crate. Nothing is known of a value of it
/// here; it is only told apart from success.
#[verifier::external_type_specification]
#[verifier::external_body]
pub struct ExDigestError(argon2::Error);

/// The `len` bytes that `Argon2::default().hash_password_into` writes for
/// `password` and `salt` (Argon2id, version 19, with the crate's default
/// cost parameters); `None` where it reports an error, as it does for a salt
/// of fewer than eight bytes or an output of fewer than four.
pub uninterp spec fn argon2_digest(password: Seq<u8>, salt: Seq<u8>, len: u32) -> Option<Seq<u8>>;

/// Calls `argon2::Argon2::default().hash_password_into` with an output
/// buffer of `len` bytes. The algorithm is deterministic in the password,
/// the salt and the length of the output; the contract only names the
/// outcome.
#[verifier::external_body]
pub(crate) fn argon2_hash(password: &[u8], salt: &[u8], len: u32) -> (r: Result<
    Vec<u8>,
    argon2::Error,
>)
    ensures
        match r {
            Ok(digest) => argon2_digest(password@, salt@, len) == Some(digest@),
            Err(_) => argon2_digest(password@, salt@, len) is None,
        },
{
    let mut out = vec![0u8; len as usize];
    argon2::Argon2::default().hash_password_into(password, salt, &mut out)?;
    Ok(out)
}

} // verus!
