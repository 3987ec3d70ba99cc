//! Bearer tokens: what they claim, how they are issued, and how they are
//! checked.
//!
//! Signing and signature checking are the `jsonwebtoken` crate's work (see
//! [`crate::jwt`]); everything around those two calls is proved here.

use vstd::prelude::*;
use vstd::string::*;
use vstd::utf8::encode_utf8;
use crate::error::{ApiError, AuthError};
use crate::jwt::{jwt_decode, jwt_decoding, jwt_encode, jwt_encoding};
use crate::text::{
    dec_repr, i32_to_string, opt_text, parse_i32, parse_i32_spec, parse_u64, parse_u64_spec,
};

verus! {

/// What a token asserts: who it was issued to, and until when it holds.
#[derive(Debug)]
pub struct Claims {
    /// The user's id, in decimal.
    pub sub: String,
    /// The Unix time, in seconds, from which the token is no longer accepted.
    pub exp: usize,
}

/// The settings that the token issuer needs.
#[derive(Debug)]
pub struct AuthConfig {
    /// The shared secret that signs and checks tokens.
    pub secret: String,
    /// For how many seconds an issued token holds.
    pub expiration: u64,
}

/// What issuing a token gives: a configuration error where the secret is
/// missing, where the expiry `now + ttl` cannot be represented, or where the
/// signer fails; otherwise the signed token for the user's decimal id and
/// that expiry.
pub open spec fn token_issue(user_id: i32, now: u64, ttl: u64, secret: Option<Seq<u8>>) -> Result<
    Seq<char>,
    ApiError,
> {
    match secret {
        None => Err(ApiError::Config),
        Some(key) => if now + ttl > usize::MAX {
            Err(ApiError::Config)
        } else {
            match jwt_encoding(dec_repr(user_id as int), (now + ttl) as u64, key) {
                Some(token) => Ok(token),
                None => Err(ApiError::Config),
            }
        },
    }
}

/// What checking a decoded token at time `now` gives. A token that did not
/// decode is invalid. One that decoded is expired unless its expiry lies
/// strictly after `now`; otherwise it yields the user id that its subject
/// writes in decimal, and is invalid where the subject writes none.
pub open spec fn token_outcome(decoded: Option<(Seq<char>, u64)>, now: u64) -> Result<
    i32,
    AuthError,
> {
    match decoded {
        None => Err(AuthError::Invalid),
        Some((sub, exp)) => if exp <= now {
            Err(AuthError::Expired)
        } else {
            match parse_i32_spec(sub) {
                Some(id) => Ok(id),
                None => Err(AuthError::Invalid),
            }
        },
    }
}

/// What verifying `token` against `secret` at time `now` gives.
pub open spec fn token_verify(token: Seq<char>, now: u64, secret: Seq<u8>) -> Result<
    i32,
    AuthError,
> {
    token_outcome(jwt_decoding(token, secret), now)
}

/// The view of a decoded subject and expiry.
pub open spec fn decoded_view(decoded: Option<(String, u64)>) -> Option<(Seq<char>, u64)> {
    match decoded {
        Some(found) => Some((found.0@, found.1)),
        None => None,
    }
}

impl Claims {
    /// The claims of a token issued to user `index` at time `now` that holds
    /// for `expiration` seconds.
    pub fn new(index: i32, now: u64, expiration: u64) -> (r: Claims)
        requires
            now + expiration <= usize::MAX,
        ensures
            r.sub@ == dec_repr(index as int),
            r.exp == now + expiration,
    {
        Claims { sub: i32_to_string(index), exp: (now + expiration) as usize }
    }

    /// Signs these claims into a token. Fails with a configuration error
    /// exactly where the signer reports an error.
    pub fn get_token(&self, secret: &str) -> (r: Result<String, ApiError>)
        ensures
            match r {
                Ok(token) => jwt_encoding(self.sub@, self.exp as u64, encode_utf8(secret@)) == Some(
                    token@,
                ),
                Err(e) => e == ApiError::Config && jwt_encoding(
                    self.sub@,
                    self.exp as u64,
                    encode_utf8(secret@),
                ) is None,
            },
    {
        match jwt_encode(self.sub.as_str(), self.exp as u64, secret.as_bytes()) {
            Ok(token) => Ok(token),
            Err(_) => Err(ApiError::Config),
        }
    }

    /// Checks `token` against `secret` at time `now` and resolves it to the
    /// user it was issued to.
    pub fn get_index(token: &str, secret: &str, now: u64) -> (r: Result<i32, AuthError>)
        ensures
            r == token_verify(token@, now, encode_utf8(secret@)),
    {
        let decoded = match jwt_decode(token, secret.as_bytes()) {
            Ok(found) => found,
            Err(_) => None,
        };
        resolve_claims(decoded, now)
    }
}

/// Decides what a decoded token is worth at time `now`: the second half of
/// token verification, for every possible outcome of the decoding.
pub fn resolve_claims(decoded: Option<(String, u64)>, now: u64) -> (r: Result<i32, AuthError>)
    ensures
        r == token_outcome(decoded_view(decoded), now),
{
    match decoded {
        None => Err(AuthError::Invalid),
        Some(found) => {
            if found.1 <= now {
                Err(AuthError::Expired)
            } else {
                match parse_i32(found.0.as_str()) {
                    Some(id) => Ok(id),
                    None => Err(AuthError::Invalid),
                }
            }
        },
    }
}

/// Resolves `token` to the user it was issued to; the same check as
/// [`Claims::get_index`].
pub fn get_user_id_from_token(token: &str, secret: &str, now: u64) -> (r: Result<i32, AuthError>)
    ensures
        r == token_verify(token@, now, encode_utf8(secret@)),
{
    Claims::get_index(token, secret, now)
}

/// Issues a signed token for `user_id` that expires `ttl` seconds after
/// `now`.
pub fn issue_token(user_id: i32, now: u64, ttl: u64, secret: Option<&str>) -> (r: Result<
    String,
    ApiError,
>)
    ensures
        match r {
            Ok(token) => token_issue(
                user_id,
                now,
                ttl,
                match secret {
                    Some(s) => Some(encode_utf8(s@)),
                    None => None,
                },
            ) == Ok::<Seq<char>, ApiError>(token@),
            Err(e) => token_issue(
                user_id,
                now,
                ttl,
                match secret {
                    Some(s) => Some(encode_utf8(s@)),
                    None => None,
                },
            ) == Err::<Seq<char>, ApiError>(e),
        },
{
    match secret {
        None => Err(ApiError::Config),
        Some(key) => {
            match now.checked_add(ttl) {
                None => Err(ApiError::Config),
                Some(end) => {
                    if end > usize::MAX as u64 {
                        Err(ApiError::Config)
                    } else {
                        Claims::new(user_id, now, ttl).get_token(key)
                    }
                },
            }
        },
    }
}

/// Checks `token` at time `now`: the signature, the shape of the payload,
/// and that the expiry lies strictly in the future. Never panics on
/// malformed input.
pub fn verify_token(token: &str, now: u64, secret: &str) -> (r: Result<i32, AuthError>)
    ensures
        r == token_verify(token@, now, encode_utf8(secret@)),
{
    Claims::get_index(token, secret, now)
}

impl AuthConfig {
    /// What reading the configuration gives: an error unless the secret is
    /// set and the expiration is set to a decimal number of seconds.
    pub open spec fn spec_from_vars(secret: Option<Seq<char>>, expiration: Option<Seq<char>>) -> Result<
        (Seq<char>, u64),
        ApiError,
    > {
        match (secret, expiration) {
            (Some(s), Some(e)) => match parse_u64_spec(e) {
                Some(seconds) => Ok((s, seconds)),
                None => Err(ApiError::Config),
            },
            _ => Err(ApiError::Config),
        }
    }

    /// Builds the configuration from the values of the two settings
    /// `SECRET` and `EXPIRATION`, as found (or not) in the environment.
    pub fn from_vars(secret: Option<String>, expiration: Option<String>) -> (r: Result<
        AuthConfig,
        ApiError,
    >)
        ensures
            match r {
                Ok(cfg) => AuthConfig::spec_from_vars(
                    opt_text(secret),
                    opt_text(expiration),
                ) == Ok::<(Seq<char>, u64), ApiError>((cfg.secret@, cfg.expiration)),
                Err(e) => AuthConfig::spec_from_vars(
                    opt_text(secret),
                    opt_text(expiration),
                ) == Err::<(Seq<char>, u64), ApiError>(e),
            },
    {
        match secret {
            None => Err(ApiError::Config),
            Some(s) => match expiration {
                None => Err(ApiError::Config),
                Some(e) => match parse_u64(e.as_str()) {
                    Some(seconds) => Ok(AuthConfig { secret: s, expiration: seconds }),
                    None => Err(ApiError::Config),
                },
            },
        }
    }
}

} // verus!
