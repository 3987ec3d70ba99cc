//! The routes of labels.

use vstd::prelude::*;
use vstd::string::*;
use vstd::utf8::encode_utf8;
use crate::auth::{access, token_text, validator};
use crate::error::{ApiError, AuthError};
use crate::model::claims::AuthConfig;
use crate::model::label::{Label, LabelView, NewLabel};
use crate::model::store::{Db, Store};
use crate::routes::{answered, denied, deny, fail, failed, Body, BodyView, Response, ResponseView};

verus! {

/// The response that carries a label, or reports why there is none.
pub open spec fn label_answer(res: Result<LabelView, ApiError>) -> ResponseView {
    match res {
        Ok(label) => answered(200, BodyView::Label(label)),
        Err(e) => failed(e),
    }
}

/// `POST /labels`: 200 with the new label.
pub open spec fn create_label_spec(db: Db, who: Result<i32, AuthError>, name: Seq<char>) -> (
    Db,
    ResponseView,
) {
    match who {
        Err(e) => (db, denied(e)),
        Ok(user_id) => {
            let (next, res) = db.labels_new(name, user_id);
            (next, label_answer(res))
        },
    }
}

/// `GET /labels/{id}`: 200 with the label.
pub open spec fn read_label_spec(db: Db, who: Result<i32, AuthError>, id: i32) -> ResponseView {
    match who {
        Err(e) => denied(e),
        Ok(user_id) => label_answer(db.labels_get(id, user_id)),
    }
}

/// `GET /labels`: 200 with the caller's labels.
pub open spec fn read_labels_spec(db: Db, who: Result<i32, AuthError>) -> ResponseView {
    match who {
        Err(e) => denied(e),
        Ok(user_id) => answered(200, BodyView::Labels(db.labels_all(user_id))),
    }
}

/// `PUT /labels`: 200 with the label as renamed.
pub open spec fn update_label_spec(
    db: Db,
    who: Result<i32, AuthError>,
    id: i32,
    name: Seq<char>,
) -> (Db, ResponseView) {
    match who {
        Err(e) => (db, denied(e)),
        Ok(user_id) => {
            let (next, res) = db.labels_update(id, name, user_id);
            (next, label_answer(res))
        },
    }
}

/// `DELETE /labels/{id}`: 200 with the label as it was.
pub open spec fn delete_label_spec(db: Db, who: Result<i32, AuthError>, id: i32) -> (
    Db,
    ResponseView,
) {
    match who {
        Err(e) => (db, denied(e)),
        Ok(user_id) => {
            let (next, res) = db.labels_delete(id, user_id);
            (next, label_answer(res))
        },
    }
}

fn answer_label(res: Result<Label, ApiError>) -> (r: Response)
    ensures
        r@ == label_answer(crate::model::store::outcome(res)),
{
    match res {
        Ok(label) => Response { status: 200, body: Body::Label(label) },
        Err(e) => fail(e),
    }
}

/// `POST /labels`: creates a label for the caller.
pub fn create_label(
    store: &mut Store,
    cfg: &AuthConfig,
    credentials: Option<&str>,
    label: NewLabel,
    now: u64,
) -> (r: Response)
    requires
        old(store)@.wf(),
    ensures
        final(store)@.wf(),
        (final(store)@, r@) == create_label_spec(
            old(store)@,
            access(token_text(credentials), encode_utf8(cfg.secret@), now),
            label.name@,
        ),
{
    match validator(credentials, cfg, now) {
        Ok(user_id) => answer_label(Label::new(store, label.name.as_str(), user_id)),
        Err(e) => deny(e),
    }
}

/// `GET /labels/{id}`: reads one label of the caller.
pub fn read_label(store: &Store, cfg: &AuthConfig, credentials: Option<&str>, id: i32, now: u64) -> (r:
    Response)
    requires
        store@.wf(),
    ensures
        r@ == read_label_spec(
            store@,
            access(token_text(credentials), encode_utf8(cfg.secret@), now),
            id,
        ),
{
    match validator(credentials, cfg, now) {
        Ok(user_id) => answer_label(Label::get(store, id, user_id)),
        Err(e) => deny(e),
    }
}

/// `GET /labels`: lists the labels of the caller.
pub fn read_labels(store: &Store, cfg: &AuthConfig, credentials: Option<&str>, now: u64) -> (r:
    Response)
    ensures
        r@ == read_labels_spec(
            store@,
            access(token_text(credentials), encode_utf8(cfg.secret@), now),
        ),
{
    match validator(credentials, cfg, now) {
        Ok(user_id) => Response { status: 200, body: Body::Labels(Label::all(store, user_id)) },
        Err(e) => deny(e),
    }
}

/// `PUT /labels`: renames a label of the caller.
pub fn update_label(
    store: &mut Store,
    cfg: &AuthConfig,
    credentials: Option<&str>,
    label: Label,
    now: u64,
) -> (r: Response)
    requires
        old(store)@.wf(),
    ensures
        final(store)@.wf(),
        (final(store)@, r@) == update_label_spec(
            old(store)@,
            access(token_text(credentials), encode_utf8(cfg.secret@), now),
            label.id,
            label.name@,
        ),
{
    match validator(credentials, cfg, now) {
        Ok(user_id) => answer_label(Label::update(store, label, user_id)),
        Err(e) => deny(e),
    }
}

/// `DELETE /labels/{id}`: deletes a label of the caller.
pub fn delete_label(
    store: &mut Store,
    cfg: &AuthConfig,
    credentials: Option<&str>,
    id: i32,
    now: u64,
) -> (r: Response)
    requires
        old(store)@.wf(),
    ensures
        final(store)@.wf(),
        (final(store)@, r@) == delete_label_spec(
            old(store)@,
            access(token_text(credentials), encode_utf8(cfg.secret@), now),
            id,
        ),
{
    match validator(credentials, cfg, now) {
        Ok(user_id) => answer_label(Label::delete(store, id, user_id)),
        Err(e) => deny(e),
    }
}

} // verus!
