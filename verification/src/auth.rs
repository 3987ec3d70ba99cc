//! The guard in front of every protected route: no token, no entry.

use vstd::prelude::*;
use vstd::string::*;
use vstd::utf8::encode_utf8;
use crate::error::AuthError;
use crate::model::claims::{token_verify, verify_token, AuthConfig};

verus! {

/// Where a request stands on its way past the guard.
#[derive(Clone, Copy, Debug, PartialEq, Eq, Structural)]
pub enum AuthState {
    /// Nothing is known of the request yet.
    Unauthenticated,
    /// The request carries a token, which has not been checked.
    Verifying,
    /// The token resolved to this user; the route may run.
    Authenticated(i32),
    /// The request is turned away; the route must not run.
    Rejected(AuthError),
}

impl AuthState {
    /// Whether the guard has decided.
    pub open spec fn settled(self) -> bool {
        self is Authenticated || self is Rejected
    }

    /// The state after one step. A request without a token is rejected as
    /// missing one; a token is first noticed, then verified at time `now`.
    /// A settled state stays as it is.
    pub open spec fn spec_next(self, credentials: Option<Seq<char>>, secret: Seq<u8>, now: u64) -> AuthState {
        match self {
            AuthState::Unauthenticated => match credentials {
                None => AuthState::Rejected(AuthError::Missing),
                Some(_) => AuthState::Verifying,
            },
            AuthState::Verifying => match credentials {
                None => AuthState::Rejected(AuthError::Missing),
                Some(token) => match token_verify(token, now, secret) {
                    Ok(user_id) => AuthState::Authenticated(user_id),
                    Err(e) => AuthState::Rejected(e),
                },
            },
            AuthState::Authenticated(user_id) => AuthState::Authenticated(user_id),
            AuthState::Rejected(e) => AuthState::Rejected(e),
        }
    }

    /// Takes one step.
    pub fn next(self, credentials: Option<&str>, cfg: &AuthConfig, now: u64) -> (r: AuthState)
        ensures
            r == self.spec_next(token_text(credentials), encode_utf8(cfg.secret@), now),
    {
        match self {
            AuthState::Unauthenticated => match credentials {
                None => AuthState::Rejected(AuthError::Missing),
                Some(_) => AuthState::Verifying,
            },
            AuthState::Verifying => match credentials {
                None => AuthState::Rejected(AuthError::Missing),
                Some(token) => match verify_token(token, now, cfg.secret.as_str()) {
                    Ok(user_id) => AuthState::Authenticated(user_id),
                    Err(e) => AuthState::Rejected(e),
                },
            },
            AuthState::Authenticated(user_id) => AuthState::Authenticated(user_id),
            AuthState::Rejected(e) => AuthState::Rejected(e),
        }
    }
}

/// The characters of an optional token.
pub open spec fn token_text(credentials: Option<&str>) -> Option<Seq<char>> {
    match credentials {
        Some(token) => Some(token@),
        None => None,
    }
}

/// Who a request acts for: the user that its token resolves to at time
/// `now`, or why it is turned away.
pub open spec fn access(credentials: Option<Seq<char>>, secret: Seq<u8>, now: u64) -> Result<
    i32,
    AuthError,
> {
    match credentials {
        None => Err(AuthError::Missing),
        Some(token) => token_verify(token, now, secret),
    }
}

/// Two steps settle every request, and they settle it as [`access`] says.
pub proof fn lemma_guard_settles(credentials: Option<Seq<char>>, secret: Seq<u8>, now: u64)
    ensures
        AuthState::Unauthenticated.spec_next(credentials, secret, now).spec_next(
            credentials,
            secret,
            now,
        ).settled(),
        AuthState::Unauthenticated.spec_next(credentials, secret, now).spec_next(
            credentials,
            secret,
            now,
        ) == match access(credentials, secret, now) {
            Ok(user_id) => AuthState::Authenticated(user_id),
            Err(e) => AuthState::Rejected(e),
        },
{
}

/// A request that is settled stays settled, and as it was.
pub proof fn lemma_settled_stays(
    state: AuthState,
    credentials: Option<Seq<char>>,
    secret: Seq<u8>,
    now: u64,
)
    requires
        state.settled(),
    ensures
        state.spec_next(credentials, secret, now) == state,
{
}

/// Runs a request past the guard: resolves the bearer token, if there is
/// one, to the user it was issued to.
pub fn validator(credentials: Option<&str>, cfg: &AuthConfig, now: u64) -> (r: Result<
    i32,
    AuthError,
>)
    ensures
        r == access(token_text(credentials), encode_utf8(cfg.secret@), now),
{
    let noticed = AuthState::Unauthenticated.next(credentials, cfg, now);
    let settled = noticed.next(credentials, cfg, now);
    proof {
        lemma_guard_settles(token_text(credentials), encode_utf8(cfg.secret@), now);
    }
    match settled {
        AuthState::Authenticated(user_id) => Ok(user_id),
        AuthState::Rejected(e) => Err(e),
        AuthState::Unauthenticated => Err(AuthError::Invalid),
        AuthState::Verifying => Err(AuthError::Invalid),
    }
}

} // verus!
