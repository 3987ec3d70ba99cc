//! The routes of notes, and of the labels and categories attached to them.

use vstd::prelude::*;
use vstd::string::*;
use vstd::utf8::encode_utf8;
use crate::auth::{access, token_text, validator};
use crate::error::{ApiError, AuthError};
use crate::model::category::Category;
use crate::model::claims::AuthConfig;
use crate::model::label::Label;
use crate::model::note::{NewNote, Note, NoteView, UpdateNote};
use crate::model::note_category::NoteCategory;
use crate::model::note_label::NoteLabel;
use crate::model::store::{Db, Store};
use crate::routes::{answered, denied, deny, fail, failed, Body, BodyView, Response, ResponseView};
use crate::text::opt_text;

verus! {

/// The response that carries a note, or reports why there is none.
pub open spec fn note_answer(status: u16, res: Result<NoteView, ApiError>) -> ResponseView {
    match res {
        Ok(note) => answered(status, BodyView::Note(note)),
        Err(e) => failed(e),
    }
}

/// The response that carries a note-label edge, or reports why there is
/// none.
pub open spec fn note_label_answer(res: Result<NoteLabel, ApiError>) -> ResponseView {
    match res {
        Ok(edge) => answered(200, BodyView::NoteLabel(edge)),
        Err(e) => failed(e),
    }
}

/// The response that carries a note-category edge, or reports why there is
/// none.
pub open spec fn note_category_answer(res: Result<NoteCategory, ApiError>) -> ResponseView {
    match res {
        Ok(edge) => answered(200, BodyView::NoteCategory(edge)),
        Err(e) => failed(e),
    }
}

/// `POST /notes`: 201 with the new note.
pub open spec fn create_note_spec(
    db: Db,
    who: Result<i32, AuthError>,
    title: Seq<char>,
    body: Option<Seq<char>>,
    now: u64,
) -> (Db, ResponseView) {
    match who {
        Err(e) => (db, denied(e)),
        Ok(user_id) => {
            let (next, res) = db.notes_new(title, body, user_id, now);
            (next, note_answer(201, res))
        },
    }
}

/// `GET /notes/{id}`: 200 with the note.
pub open spec fn read_note_spec(db: Db, who: Result<i32, AuthError>, id: i32) -> ResponseView {
    match who {
        Err(e) => denied(e),
        Ok(user_id) => note_answer(200, db.notes_get(id, user_id)),
    }
}

/// `GET /notes`: 200 with the caller's notes.
pub open spec fn read_notes_spec(db: Db, who: Result<i32, AuthError>) -> ResponseView {
    match who {
        Err(e) => denied(e),
        Ok(user_id) => answered(200, BodyView::Notes(db.notes_all(user_id))),
    }
}

/// `GET /notes/{id}/categories/`: 200 with the categories of the note.
pub open spec fn read_categories_for_note_spec(db: Db, who: Result<i32, AuthError>, id: i32) -> ResponseView {
    match who {
        Err(e) => denied(e),
        Ok(user_id) => answered(200, BodyView::Categories(db.categories_for_note(id, user_id))),
    }
}

/// `GET /notes/{id}/labels/`: 200 with the labels of the note.
pub open spec fn read_labels_for_note_spec(db: Db, who: Result<i32, AuthError>, id: i32) -> ResponseView {
    match who {
        Err(e) => denied(e),
        Ok(user_id) => answered(200, BodyView::Labels(db.labels_for_note(id, user_id))),
    }
}

/// `PUT /notes`: 200 with the note as changed.
pub open spec fn update_note_spec(
    db: Db,
    who: Result<i32, AuthError>,
    id: i32,
    title: Option<Seq<char>>,
    body: Option<Seq<char>>,
    now: u64,
) -> (Db, ResponseView) {
    match who {
        Err(e) => (db, denied(e)),
        Ok(user_id) => {
            let (next, res) = db.notes_update(id, title, body, user_id, now);
            (next, note_answer(200, res))
        },
    }
}

/// `DELETE /notes/{id}`: 200 with the note as it was.
pub open spec fn delete_note_spec(db: Db, who: Result<i32, AuthError>, id: i32) -> (
    Db,
    ResponseView,
) {
    match who {
        Err(e) => (db, denied(e)),
        Ok(user_id) => {
            let (next, res) = db.notes_delete(id, user_id);
            (next, note_answer(200, res))
        },
    }
}

/// `PUT /notes/{note_id}/labels/{label_id}`: 200 with the new edge.
pub open spec fn add_label_to_note_spec(
    db: Db,
    who: Result<i32, AuthError>,
    note_id: i32,
    label_id: i32,
) -> (Db, ResponseView) {
    match who {
        Err(e) => (db, denied(e)),
        Ok(user_id) => {
            let (next, res) = db.notes_labels_new(note_id, label_id, user_id);
            (next, note_label_answer(res))
        },
    }
}

/// `DELETE /notes/{note_id}/labels/{label_id}`: 200 with the edge as it
/// was.
pub open spec fn delete_label_from_note_spec(
    db: Db,
    who: Result<i32, AuthError>,
    note_id: i32,
    label_id: i32,
) -> (Db, ResponseView) {
    match who {
        Err(e) => (db, denied(e)),
        Ok(user_id) => {
            let (next, res) = db.notes_labels_delete(note_id, label_id, user_id);
            (next, note_label_answer(res))
        },
    }
}

/// `PUT /notes/{note_id}/categories/{category_id}`: 200 with the new edge.
pub open spec fn add_category_to_note_spec(
    db: Db,
    who: Result<i32, AuthError>,
    note_id: i32,
    category_id: i32,
) -> (Db, ResponseView) {
    match who {
        Err(e) => (db, denied(e)),
        Ok(user_id) => {
            let (next, res) = db.notes_categories_new(note_id, category_id, user_id);
            (next, note_category_answer(res))
        },
    }
}

/// `DELETE /notes/{note_id}/categories/{category_id}`: 200 with the edge as
/// it was.
pub open spec fn delete_category_from_note_spec(
    db: Db,
    who: Result<i32, AuthError>,
    note_id: i32,
    category_id: i32,
) -> (Db, ResponseView) {
    match who {
        Err(e) => (db, denied(e)),
        Ok(user_id) => {
            let (next, res) = db.notes_categories_delete(note_id, category_id, user_id);
            (next, note_category_answer(res))
        },
    }
}

fn answer_note(status: u16, res: Result<Note, ApiError>) -> (r: Response)
    ensures
        r@ == note_answer(status, crate::model::store::outcome(res)),
{
    match res {
        Ok(note) => Response { status: status, body: Body::Note(note) },
        Err(e) => fail(e),
    }
}

fn answer_note_label(res: Result<NoteLabel, ApiError>) -> (r: Response)
    ensures
        r@ == note_label_answer(res),
{
    match res {
        Ok(edge) => Response { status: 200, body: Body::NoteLabel(edge) },
        Err(e) => fail(e),
    }
}

fn answer_note_category(res: Result<NoteCategory, ApiError>) -> (r: Response)
    ensures
        r@ == note_category_answer(res),
{
    match res {
        Ok(edge) => Response { status: 200, body: Body::NoteCategory(edge) },
        Err(e) => fail(e),
    }
}

/// The greeting of the service.
pub fn root() -> (r: Response)
    ensures
        r@ == answered(200, BodyView::Text("Hello world, Rust!"@)),
{
    crate::routes::root()
}

/// `POST /notes`: creates a note for the caller.
pub fn create_note(
    store: &mut Store,
    cfg: &AuthConfig,
    credentials: Option<&str>,
    note: NewNote,
    now: u64,
) -> (r: Response)
    requires
        old(store)@.wf(),
    ensures
        final(store)@.wf(),
        (final(store)@, r@) == create_note_spec(
            old(store)@,
            access(token_text(credentials), encode_utf8(cfg.secret@), now),
            note.title@,
            opt_text(note.body),
            now,
        ),
{
    match validator(credentials, cfg, now) {
        Ok(user_id) => answer_note(201, Note::new(store, note, user_id, now)),
        Err(e) => deny(e),
    }
}

/// `GET /notes/{id}`: reads one note of the caller.
pub fn read_note(store: &Store, cfg: &AuthConfig, credentials: Option<&str>, id: i32, now: u64) -> (r:
    Response)
    requires
        store@.wf(),
    ensures
        r@ == read_note_spec(
            store@,
            access(token_text(credentials), encode_utf8(cfg.secret@), now),
            id,
        ),
{
    match validator(credentials, cfg, now) {
        Ok(user_id) => answer_note(200, Note::get(store, id, user_id)),
        Err(e) => deny(e),
    }
}

/// `GET /notes`: lists the notes of the caller.
pub fn read_notes(store: &Store, cfg: &AuthConfig, credentials: Option<&str>, now: u64) -> (r:
    Response)
    ensures
        r@ == read_notes_spec(
            store@,
            access(token_text(credentials), encode_utf8(cfg.secret@), now),
        ),
{
    match validator(credentials, cfg, now) {
        Ok(user_id) => Response { status: 200, body: Body::Notes(Note::all(store, user_id)) },
        Err(e) => deny(e),
    }
}

/// `GET /notes/{id}/categories/`: lists the categories of a note of the
/// caller.
pub fn read_categories_for_note(
    store: &Store,
    cfg: &AuthConfig,
    credentials: Option<&str>,
    id: i32,
    now: u64,
) -> (r: Response)
    ensures
        r@ == read_categories_for_note_spec(
            store@,
            access(token_text(credentials), encode_utf8(cfg.secret@), now),
            id,
        ),
{
    match validator(credentials, cfg, now) {
        Ok(user_id) => Response {
            status: 200,
            body: Body::Categories(Category::get_categories_for_note(store, id, user_id)),
        },
        Err(e) => deny(e),
    }
}

/// `GET /notes/{id}/labels/`: lists the labels of a note of the caller.
pub fn read_labels_for_note(
    store: &Store,
    cfg: &AuthConfig,
    credentials: Option<&str>,
    id: i32,
    now: u64,
) -> (r: Response)
    ensures
        r@ == read_labels_for_note_spec(
            store@,
            access(token_text(credentials), encode_utf8(cfg.secret@), now),
            id,
        ),
{
    match validator(credentials, cfg, now) {
        Ok(user_id) => Response {
            status: 200,
            body: Body::Labels(Label::get_labels_for_note(store, id, user_id)),
        },
        Err(e) => deny(e),
    }
}

/// `PUT /notes`: changes the fields of a note of the caller that the patch
/// gives.
pub fn update_note(
    store: &mut Store,
    cfg: &AuthConfig,
    credentials: Option<&str>,
    patch: UpdateNote,
    now: u64,
) -> (r: Response)
    requires
        old(store)@.wf(),
    ensures
        final(store)@.wf(),
        (final(store)@, r@) == update_note_spec(
            old(store)@,
            access(token_text(credentials), encode_utf8(cfg.secret@), now),
            patch.id,
            opt_text(patch.title),
            opt_text(patch.body),
            now,
        ),
{
    match validator(credentials, cfg, now) {
        Ok(user_id) => answer_note(200, Note::update(store, patch, user_id, now)),
        Err(e) => deny(e),
    }
}

/// `DELETE /notes/{id}`: deletes a note of the caller.
pub fn delete_note(
    store: &mut Store,
    cfg: &AuthConfig,
    credentials: Option<&str>,
    id: i32,
    now: u64,
) -> (r: Response)
    requires
        old(store)@.wf(),
    ensures
        final(store)@.wf(),
        (final(store)@, r@) == delete_note_spec(
            old(store)@,
            access(token_text(credentials), encode_utf8(cfg.secret@), now),
            id,
        ),
{
    match validator(credentials, cfg, now) {
        Ok(user_id) => answer_note(200, Note::delete(store, id, user_id)),
        Err(e) => deny(e),
    }
}

/// `PUT /notes/{note_id}/labels/{label_id}`: attaches a label of the caller
/// to a note of the caller.
pub fn add_label_to_note(
    store: &mut Store,
    cfg: &AuthConfig,
    credentials: Option<&str>,
    note_id: i32,
    label_id: i32,
    now: u64,
) -> (r: Response)
    requires
        old(store)@.wf(),
    ensures
        final(store)@.wf(),
        (final(store)@, r@) == add_label_to_note_spec(
            old(store)@,
            access(token_text(credentials), encode_utf8(cfg.secret@), now),
            note_id,
            label_id,
        ),
{
    match validator(credentials, cfg, now) {
        Ok(user_id) => answer_note_label(NoteLabel::new(store, note_id, label_id, user_id)),
        Err(e) => deny(e),
    }
}

/// `DELETE /notes/{note_id}/labels/{label_id}`: detaches a label from a
/// note of the caller.
pub fn delete_label_from_note(
    store: &mut Store,
    cfg: &AuthConfig,
    credentials: Option<&str>,
    note_id: i32,
    label_id: i32,
    now: u64,
) -> (r: Response)
    requires
        old(store)@.wf(),
    ensures
        final(store)@.wf(),
        (final(store)@, r@) == delete_label_from_note_spec(
            old(store)@,
            access(token_text(credentials), encode_utf8(cfg.secret@), now),
            note_id,
            label_id,
        ),
{
    match validator(credentials, cfg, now) {
        Ok(user_id) => answer_note_label(NoteLabel::delete(store, note_id, label_id, user_id)),
        Err(e) => deny(e),
    }
}

/// `PUT /notes/{note_id}/categories/{category_id}`: files a note of the
/// caller under a category of the caller.
pub fn add_category_to_note(
    store: &mut Store,
    cfg: &AuthConfig,
    credentials: Option<&str>,
    note_id: i32,
    category_id: i32,
    now: u64,
) -> (r: Response)
    requires
        old(store)@.wf(),
    ensures
        final(store)@.wf(),
        (final(store)@, r@) == add_category_to_note_spec(
            old(store)@,
            access(token_text(credentials), encode_utf8(cfg.secret@), now),
            note_id,
            category_id,
        ),
{
    match validator(credentials, cfg, now) {
        Ok(user_id) => answer_note_category(
            NoteCategory::new(store, note_id, category_id, user_id),
        ),
        Err(e) => deny(e),
    }
}

/// `DELETE /notes/{note_id}/categories/{category_id}`: takes a note of the
/// caller out of a category.
pub fn delete_category_from_note(
    store: &mut Store,
    cfg: &AuthConfig,
    credentials: Option<&str>,
    note_id: i32,
    category_id: i32,
    now: u64,
) -> (r: Response)
    requires
        old(store)@.wf(),
    ensures
        final(store)@.wf(),
        (final(store)@, r@) == delete_category_from_note_spec(
            old(store)@,
            access(token_text(credentials), encode_utf8(cfg.secret@), now),
            note_id,
            category_id,
        ),
{
    match validator(credentials, cfg, now) {
        Ok(user_id) => answer_note_category(
            NoteCategory::delete(store, note_id, category_id, user_id),
        ),
        Err(e) => deny(e),
    }
}

} // verus!
