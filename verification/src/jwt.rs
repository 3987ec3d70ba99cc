//! The boundary to the `jsonwebtoken` crate.
//!
//! The token is a JSON Web Token signed with HMAC-SHA256. Nothing in this
//! file is proved: the two wrappers make the outside calls, and their
//! contracts only give the outcomes a name, so that the verified code can
//! say exactly what it does with them.

use vstd::prelude::*;

verus! {

/// The error type of the `jsonwebtoken` crate. Nothing is known of a value
/// of it here; it is only told apart from success.
#[verifier::external_type_specification]
#[verifier::external_body]
pub struct ExTokenError(jsonwebtoken::errors::Error);

/// The token that `jsonwebtoken::encode` produces for a payload with the
/// subject `sub` and the expiry `exp`, under the default header and the
/// HMAC secret `secret`; `None` where it reports an error.
pub uninterp spec fn jwt_encoding(sub: Seq<char>, exp: u64, secret: Seq<u8>) -> Option<Seq<char>>;

/// The subject and expiry that `jsonwebtoken::decode` reads out of `token`
/// when it checks the signature against the HMAC secret `secret` and leaves
/// the expiry unchecked; `None` where it reports an error, or where the
/// payload lacks a textual `sub` or a non-negative integer `exp`.
pub uninterp spec fn jwt_decoding(token: Seq<char>, secret: Seq<u8>) -> Option<(Seq<char>, u64)>;

/// Calls `jsonwebtoken::encode` with the default header (HS256), the
/// payload `{"sub": sub, "exp": exp}` and `EncodingKey::from_secret`.
/// The contract only names the outcome: the call is deterministic in its
/// three arguments, and nothing else about the token text is claimed.
#[verifier::external_body]
pub(crate) fn jwt_encode(sub: &str, exp: u64, secret: &[u8]) -> (r: Result<
    String,
    jsonwebtoken::errors::Error,
>)
    ensures
        match r {
            Ok(token) => jwt_encoding(sub@, exp, secret@) == Some(token@),
            Err(_) => jwt_encoding(sub@, exp, secret@) is None,
        },
{
    let mut payload = serde_json::Map::new();
    payload.insert(String::from("sub"), serde_json::Value::from(sub));
    payload.insert(String::from("exp"), serde_json::Value::from(exp));
    let key = jsonwebtoken::EncodingKey::from_secret(secret);
    jsonwebtoken::encode(&jsonwebtoken::Header::default(), &payload, &key)
}

/// Calls `jsonwebtoken::decode` with `DecodingKey::from_secret` and the
/// default validation (HS256, `exp` required) with its clock-dependent
/// expiry check switched off, then reads `sub` as text and `exp` as a
/// non-negative integer out of the JSON payload; `Ok(None)` where either is
/// not there. With that check off the call reads no clock, so its outcome
/// is a function of `token` and `secret` alone; the contract only names it.
#[verifier::external_body]
pub(crate) fn jwt_decode(token: &str, secret: &[u8]) -> (r: Result<
    Option<(String, u64)>,
    jsonwebtoken::errors::Error,
>)
    ensures
        match r {
            Ok(Some(found)) => jwt_decoding(token@, secret@) == Some((found.0@, found.1)),
            Ok(None) => jwt_decoding(token@, secret@) is None,
            Err(_) => jwt_decoding(token@, secret@) is None,
        },
{
    let mut validation = jsonwebtoken::Validation::default();
    validation.validate_exp = false;
    let key = jsonwebtoken::DecodingKey::from_secret(secret);
    let payload = jsonwebtoken::decode::<serde_json::Value>(token, &key, &validation)?.claims;
    let sub = payload["sub"].as_str().map(String::from);
    let exp = payload["exp"].as_u64();
    Ok(sub.zip(exp))
}

} // verus!
