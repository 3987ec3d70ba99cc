//! The routes of registration and login.

use vstd::prelude::*;
use vstd::string::*;
use vstd::utf8::encode_utf8;
use crate::auth::{access, token_text, validator};
use crate::error::AuthError;
use crate::model::claims::{issue_token, token_issue, AuthConfig};
use crate::model::store::{Db, Store};
use crate::model::user::{Credentials, User};
use crate::password::{password_digest, verify_password};
use crate::routes::{answered, denied, deny, fail, failed, Body, BodyView, Response, ResponseView};

verus! {

/// The body that hands a token out.
pub open spec fn token_message(message: Seq<char>, token: Seq<char>) -> BodyView {
    BodyView::Message { code: "Ok"@, message: message, token: Some(token) }
}

/// `POST /auth/login`: 200 with a fresh token where the address is known
/// and the password matches its digest; the login flag of the user is then
/// set. An unknown address and a wrong password are turned away alike, and
/// change nothing; so does a token that cannot be issued.
pub open spec fn login_spec(
    db: Db,
    email: Seq<char>,
    password: Seq<char>,
    secret: Seq<u8>,
    ttl: u64,
    now: u64,
) -> (Db, ResponseView) {
    match db.users_get_by_email(email) {
        Err(_) => (db, denied(AuthError::Invalid)),
        Ok(user) => if password_digest(password, user.salt) != Some(user.password) {
            (db, denied(AuthError::Invalid))
        } else {
            match token_issue(user.id, now, ttl, Some(secret)) {
                Err(e) => (db, failed(e)),
                Ok(token) => (
                    db.users_set_login(user.id, true).0,
                    answered(200, token_message("Valid credentials"@, token)),
                ),
            }
        },
    }
}

/// `POST /auth/register`: 201 with a token for the new user. Where the
/// user cannot be stored, or the token cannot be issued, nothing changes.
pub open spec fn register_spec(
    db: Db,
    email: Seq<char>,
    password: Seq<char>,
    salt: Seq<u8>,
    secret: Seq<u8>,
    ttl: u64,
    now: u64,
) -> (Db, ResponseView) {
    let (next, res) = db.users_new(email, password, salt, now);
    match res {
        Err(e) => (db, failed(e)),
        Ok(user) => match token_issue(user.id, now, ttl, Some(secret)) {
            Err(e) => (db, failed(e)),
            Ok(token) => (next, answered(201, token_message("User created"@, token))),
        },
    }
}

/// `GET /auth/validate`: 201 with a fixed acknowledgement for a request
/// that passes the guard.
pub open spec fn validate_spec(who: Result<i32, AuthError>) -> ResponseView {
    match who {
        Err(e) => denied(e),
        Ok(_) => answered(201, token_message("User created"@, "algo"@)),
    }
}

fn hand_out(status: u16, message: &str, token: String) -> (r: Response)
    ensures
        r@ == answered(status, token_message(message@, token@)),
{
    Response {
        status: status,
        body: Body::Message {
            code: "Ok".to_owned(),
            message: message.to_owned(),
            token: Some(token),
        },
    }
}

/// `POST /auth/login`: checks the credentials and hands out a token.
pub fn login(store: &mut Store, cfg: &AuthConfig, credentials: Credentials, now: u64) -> (r:
    Response)
    requires
        old(store)@.wf(),
    ensures
        final(store)@.wf(),
        (final(store)@, r@) == login_spec(
            old(store)@,
            credentials.email@,
            credentials.password@,
            encode_utf8(cfg.secret@),
            cfg.expiration,
            now,
        ),
{
    let user = match User::get_by_email(store, credentials.email.as_str()) {
        Ok(user) => user,
        Err(_) => {
            return deny(AuthError::Invalid);
        },
    };
    if !verify_password(
        credentials.password.as_str(),
        user.salt.as_slice(),
        user.password.as_str(),
    ) {
        return deny(AuthError::Invalid);
    }
    match issue_token(user.id, now, cfg.expiration, Some(cfg.secret.as_str())) {
        Err(e) => fail(e),
        Ok(token) => {
            let _ = User::set_login(store, user.id, true);
            hand_out(200, "Valid credentials", token)
        },
    }
}

/// `POST /auth/register`: stores the user, with the digest of the password
/// under `salt`, and hands out a token.
pub fn register(
    store: &mut Store,
    cfg: &AuthConfig,
    credentials: Credentials,
    salt: &[u8],
    now: u64,
) -> (r: Response)
    requires
        old(store)@.wf(),
    ensures
        final(store)@.wf(),
        (final(store)@, r@) == register_spec(
            old(store)@,
            credentials.email@,
            credentials.password@,
            salt@,
            encode_utf8(cfg.secret@),
            cfg.expiration,
            now,
        ),
{
    let user = match User::new(store, credentials, salt, now) {
        Ok(user) => user,
        Err(e) => {
            return fail(e);
        },
    };
    let ghost stored = store@;
    match issue_token(user.id, now, cfg.expiration, Some(cfg.secret.as_str())) {
        Err(e) => {
            store.users.pop();
            store.next_user = user.id;
            proof {
                assert(stored.users == old(store)@.users.push(user@));
                assert(store@.users =~= stored.users.drop_last());
                assert(store@.users =~= old(store)@.users);
                assert(store@ == old(store)@);
            }
            fail(e)
        },
        Ok(token) => hand_out(201, "User created", token),
    }
}

/// `GET /auth/validate`: acknowledges a request that passes the guard.
pub fn validate(cfg: &AuthConfig, credentials: Option<&str>, now: u64) -> (r: Response)
    ensures
        r@ == validate_spec(access(token_text(credentials), encode_utf8(cfg.secret@), now)),
{
    match validator(credentials, cfg, now) {
        Ok(_) => hand_out(201, "User created", "algo".to_owned()),
        Err(e) => deny(e),
    }
}

} // verus!
