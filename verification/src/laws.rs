//! What holds of the service as a whole: theorems over the store's view and
//! the specifications of the repositories and routes.

use vstd::prelude::*;
use crate::error::{ApiError, AuthError};
use crate::model::category::{
    category_at, category_of, category_on, category_seen, CategoryView,
};
use crate::model::label::{label_at, label_of, label_on, label_seen, LabelView};
use crate::model::note::{
    lemma_note_index, lemma_notes_new_keeps_wf, lemma_notes_update_keeps_wf, note_at, note_of,
    note_seen, NoteView,
};
use crate::model::note_category::{lemma_note_category_index, note_category_at};
use crate::model::note_label::{lemma_note_label_index, note_label_at};
use crate::jwt::{jwt_decoding, jwt_encoding};
use crate::model::claims::{token_issue, token_outcome, token_verify};
use crate::model::store::Db;
use crate::model::user::{lemma_email_index, lemma_users_insert_keeps_wf, user_email_at};
use crate::password::password_digest;
use crate::routes::categories::{create_category_spec, delete_category_spec, update_category_spec};
use crate::routes::labels::{create_label_spec, delete_label_spec, update_label_spec};
use crate::routes::notes::{
    add_category_to_note_spec, add_label_to_note_spec, create_note_spec,
    delete_category_from_note_spec, delete_label_from_note_spec, delete_note_spec,
    update_note_spec,
};
use crate::routes::{answered, denied};
use crate::routes::users::{login_spec, register_spec, token_message};
use crate::text::{dec_repr, lemma_parse_i32_round_trip, parse_i32_spec};

verus! {

/// Every row that a test keeps shows up among the kept rows.
pub proof fn lemma_kept_row_is_listed<A, B>(
    rows: Seq<A>,
    keep: spec_fn(A) -> bool,
    seen: spec_fn(A) -> B,
    i: int,
)
    requires
        0 <= i < rows.len(),
        keep(rows[i]),
    ensures
        rows.filter(keep).map_values(seen).contains(seen(rows[i])),
{
    rows.lemma_filter_contains(keep, i);
    let kept = rows.filter(keep);
    let k = choose|k: int| 0 <= k < kept.len() && kept[k] == rows[i];
    assert(kept.map_values(seen)[k] == seen(rows[i]));
}

/// Every listed row is a row of the table that the test keeps.
pub proof fn lemma_listed_row_is_kept<A, B>(
    rows: Seq<A>,
    keep: spec_fn(A) -> bool,
    seen: spec_fn(A) -> B,
    k: int,
)
    requires
        0 <= k < rows.filter(keep).map_values(seen).len(),
    ensures
        exists|i: int|
            0 <= i < rows.len() && keep(#[trigger] rows[i]) && seen(rows[i]) == rows.filter(
                keep,
            ).map_values(seen)[k],
{
    let kept = rows.filter(keep);
    rows.lemma_filter_pred(keep, k);
    assert(kept.contains(kept[k]));
    rows.lemma_filter_contains_rev(keep, kept[k]);
    let i = choose|i: int| 0 <= i < rows.len() && rows[i] == kept[k];
    assert(keep(rows[i]) && seen(rows[i]) == kept.map_values(seen)[k]);
}

/// A token that decodes is rejected as expired exactly from its expiry on;
/// before that it resolves to the id its subject writes, and a subject that
/// is the decimal text of an id resolves to that id.
pub proof fn token_expires_at_its_expiry(sub: Seq<char>, exp: u64, now: u64)
    ensures
        now >= exp ==> token_outcome(Some((sub, exp)), now) == Err::<i32, AuthError>(
            AuthError::Expired,
        ),
        now < exp ==> token_outcome(Some((sub, exp)), now) == match parse_i32_spec(sub) {
            Some(id) => Ok::<i32, AuthError>(id),
            None => Err::<i32, AuthError>(AuthError::Invalid),
        },
        forall|id: i32|
            now < exp && sub == dec_repr(id as int) ==> token_outcome(Some((sub, exp)), now) == Ok::<
                i32,
                AuthError,
            >(id),
{
    assert forall|id: i32| now < exp && sub == dec_repr(id as int) implies token_outcome(
        Some((sub, exp)),
        now,
    ) == Ok::<i32, AuthError>(id) by {
        lemma_parse_i32_round_trip(id);
    }
}

/// A request that is turned away is answered with 401 and changes nothing,
/// whichever route it was meant for and whatever it carried.
pub proof fn denied_request_changes_nothing(
    db: Db,
    e: AuthError,
    id: i32,
    other_id: i32,
    text: Seq<char>,
    title: Option<Seq<char>>,
    body: Option<Seq<char>>,
    now: u64,
)
    ensures
        denied(e).status == 401,
        create_note_spec(db, Err(e), text, body, now) == (db, denied(e)),
        update_note_spec(db, Err(e), id, title, body, now) == (db, denied(e)),
        delete_note_spec(db, Err(e), id) == (db, denied(e)),
        add_label_to_note_spec(db, Err(e), id, other_id) == (db, denied(e)),
        delete_label_from_note_spec(db, Err(e), id, other_id) == (db, denied(e)),
        add_category_to_note_spec(db, Err(e), id, other_id) == (db, denied(e)),
        delete_category_from_note_spec(db, Err(e), id, other_id) == (db, denied(e)),
        create_label_spec(db, Err(e), text) == (db, denied(e)),
        update_label_spec(db, Err(e), id, text) == (db, denied(e)),
        delete_label_spec(db, Err(e), id) == (db, denied(e)),
        create_category_spec(db, Err(e), text) == (db, denied(e)),
        update_category_spec(db, Err(e), id, text) == (db, denied(e)),
        delete_category_spec(db, Err(e), id) == (db, denied(e)),
{
}

/// A note is hidden from everybody but its owner: whoever else asks for it
/// by id is told that it is not found, and it is in nobody else's list.
pub proof fn foreign_note_is_hidden(db: Db, i: int, other: i32)
    requires
        db.wf(),
        0 <= i < db.notes.len(),
        db.notes[i].user_id != other,
    ensures
        db.notes_get(db.notes[i].id, other) == Err::<NoteView, ApiError>(ApiError::NotFound),
        forall|k: int|
            0 <= k < db.notes_all(other).len() ==> (#[trigger] db.notes_all(other)[k]).id
                != db.notes[i].id,
{
    let id = db.notes[i].id;
    let owner = db.notes[i].user_id;
    assert(note_at(db.notes, i, id, owner));
    if db.has_note(id, other) {
        let j = db.note_index(id, other);
        assert(note_at(db.notes, j, id, other));
        if i < j {
            assert(db.notes[i].id != db.notes[j].id);
        } else if j < i {
            assert(db.notes[j].id != db.notes[i].id);
        }
    }
    assert forall|k: int| 0 <= k < db.notes_all(other).len() implies (#[trigger] db.notes_all(
        other,
    )[k]).id != id by {
        lemma_listed_row_is_kept(db.notes, note_of(other), note_seen(), k);
        let j = choose|j: int|
            0 <= j < db.notes.len() && note_of(other)(#[trigger] db.notes[j]) && note_seen()(
                db.notes[j],
            ) == db.notes_all(other)[k];
        if db.notes[j].id == id {
            if i < j {
                assert(db.notes[i].id != db.notes[j].id);
            } else if j < i {
                assert(db.notes[j].id != db.notes[i].id);
            }
        }
    }
}

/// A label is hidden from everybody but its owner: whoever else asks for it
/// by id is told that it is not found, and it is in nobody else's list.
pub proof fn foreign_label_is_hidden(db: Db, i: int, other: i32)
    requires
        db.wf(),
        0 <= i < db.labels.len(),
        db.labels[i].user_id != other,
    ensures
        db.labels_get(db.labels[i].id, other) == Err::<LabelView, ApiError>(ApiError::NotFound),
        forall|k: int|
            0 <= k < db.labels_all(other).len() ==> (#[trigger] db.labels_all(other)[k]).id
                != db.labels[i].id,
{
    let id = db.labels[i].id;
    let owner = db.labels[i].user_id;
    assert(label_at(db.labels, i, id, owner));
    if db.has_label(id, other) {
        let j = db.label_index(id, other);
        assert(label_at(db.labels, j, id, other));
        if i < j {
            assert(db.labels[i].id != db.labels[j].id);
        } else if j < i {
            assert(db.labels[j].id != db.labels[i].id);
        }
    }
    assert forall|k: int| 0 <= k < db.labels_all(other).len() implies (#[trigger] db.labels_all(
        other,
    )[k]).id != id by {
        lemma_listed_row_is_kept(db.labels, label_of(other), label_seen(), k);
        let j = choose|j: int|
            0 <= j < db.labels.len() && label_of(other)(#[trigger] db.labels[j]) && label_seen()(
                db.labels[j],
            ) == db.labels_all(other)[k];
        if db.labels[j].id == id {
            if i < j {
                assert(db.labels[i].id != db.labels[j].id);
            } else if j < i {
                assert(db.labels[j].id != db.labels[i].id);
            }
        }
    }
}

/// A category is hidden from everybody but its owner: whoever else asks for it
/// by id is told that it is not found, and it is in nobody else's list.
pub proof fn foreign_category_is_hidden(db: Db, i: int, other: i32)
    requires
        db.wf(),
        0 <= i < db.categories.len(),
        db.categories[i].user_id != other,
    ensures
        db.categories_get(db.categories[i].id, other) == Err::<CategoryView, ApiError>(ApiError::NotFound),
        forall|k: int|
            0 <= k < db.categories_all(other).len() ==> (#[trigger] db.categories_all(other)[k]).id
                != db.categories[i].id,
{
    let id = db.categories[i].id;
    let owner = db.categories[i].user_id;
    assert(category_at(db.categories, i, id, owner));
    if db.has_category(id, other) {
        let j = db.category_index(id, other);
        assert(category_at(db.categories, j, id, other));
        if i < j {
            assert(db.categories[i].id != db.categories[j].id);
        } else if j < i {
            assert(db.categories[j].id != db.categories[i].id);
        }
    }
    assert forall|k: int| 0 <= k < db.categories_all(other).len() implies (#[trigger] db.categories_all(
        other,
    )[k]).id != id by {
        lemma_listed_row_is_kept(db.categories, category_of(other), category_seen(), k);
        let j = choose|j: int|
            0 <= j < db.categories.len() && category_of(other)(#[trigger] db.categories[j]) && category_seen()(
                db.categories[j],
            ) == db.categories_all(other)[k];
        if db.categories[j].id == id {
            if i < j {
                assert(db.categories[i].id != db.categories[j].id);
            } else if j < i {
                assert(db.categories[j].id != db.categories[i].id);
            }
        }
    }
}

/// A note that user `a` creates is not returned to any other user `b`,
/// neither by id nor in a list.
pub proof fn created_note_is_hidden_from_others(
    db: Db,
    title: Seq<char>,
    body: Option<Seq<char>>,
    a: i32,
    b: i32,
    now: u64,
)
    requires
        db.wf(),
        a != b,
        db.notes_new(title, body, a, now).1 is Ok,
    ensures
        ({
            let (next, res) = db.notes_new(title, body, a, now);
            &&& next.notes_get(res->Ok_0.id, b) == Err::<NoteView, ApiError>(ApiError::NotFound)
            &&& forall|k: int|
                0 <= k < next.notes_all(b).len() ==> (#[trigger] next.notes_all(b)[k]).id
                    != res->Ok_0.id
        }),
{
    let (next, res) = db.notes_new(title, body, a, now);
    lemma_notes_new_keeps_wf(db, title, body, a, now);
    let i = db.notes.len() as int;
    assert(next.notes[i].user_id == a);
    foreign_note_is_hidden(next, i, b);
}

/// A note reads back as it was created: its owner gets, under the new id,
/// the title and the body that were given (the empty body where none was),
/// and both times are the time of creation.
pub proof fn created_note_reads_back(
    db: Db,
    title: Seq<char>,
    body: Option<Seq<char>>,
    user_id: i32,
    now: u64,
)
    requires
        db.wf(),
        db.notes_new(title, body, user_id, now).1 is Ok,
    ensures
        ({
            let (next, res) = db.notes_new(title, body, user_id, now);
            let note = res->Ok_0;
            &&& next.notes_get(note.id, user_id) == res
            &&& note.id == db.next_note
            &&& note.title == title
            &&& note.body == match body {
                Some(text) => text,
                None => Seq::<char>::empty(),
            }
            &&& note.created_at == now
            &&& note.updated_at == now
        }),
{
    let (next, res) = db.notes_new(title, body, user_id, now);
    lemma_notes_new_keeps_wf(db, title, body, user_id, now);
    let i = db.notes.len() as int;
    assert(note_at(next.notes, i, res->Ok_0.id, user_id));
    lemma_note_index(next, i, res->Ok_0.id, user_id);
}

/// A change never moves a note's times back: the time of creation stays,
/// the time of the last change does not decrease, and the note then reads
/// back as changed.
pub proof fn update_keeps_time_order(
    db: Db,
    id: i32,
    title: Option<Seq<char>>,
    body: Option<Seq<char>>,
    user_id: i32,
    now: u64,
)
    requires
        db.wf(),
        db.has_note(id, user_id),
    ensures
        ({
            let before = db.notes_get(id, user_id)->Ok_0;
            let (next, res) = db.notes_update(id, title, body, user_id, now);
            &&& res is Ok
            &&& res->Ok_0.id == id
            &&& res->Ok_0.created_at == before.created_at
            &&& res->Ok_0.updated_at >= before.updated_at
            &&& res->Ok_0.updated_at >= now
            &&& next.notes_get(id, user_id) == res
        }),
{
    let (next, res) = db.notes_update(id, title, body, user_id, now);
    let i = db.note_index(id, user_id);
    assert(note_at(db.notes, i, id, user_id));
    lemma_notes_update_keeps_wf(db, id, title, body, user_id, now);
    assert(note_at(next.notes, i, id, user_id));
    lemma_note_index(next, i, id, user_id);
}

/// After a label is attached to a note, the labels listed for the note
/// include it.
pub proof fn attached_label_is_listed(db: Db, note_id: i32, label_id: i32, user_id: i32)
    requires
        db.wf(),
        db.notes_labels_new(note_id, label_id, user_id).1 is Ok,
    ensures
        exists|k: int|
            0 <= k < db.notes_labels_new(note_id, label_id, user_id).0.labels_for_note(
                note_id,
                user_id,
            ).len() && (#[trigger] db.notes_labels_new(note_id, label_id, user_id).0.labels_for_note(
                note_id,
                user_id,
            )[k]).id == label_id,
{
    let next = db.notes_labels_new(note_id, label_id, user_id).0;
    let i = db.label_index(label_id, user_id);
    assert(label_at(db.labels, i, label_id, user_id));
    let keep = label_on(next.notes_labels, note_id, user_id);
    assert(note_label_at(next.notes_labels, db.notes_labels.len() as int, note_id, label_id));
    assert(keep(next.labels[i]));
    lemma_kept_row_is_listed(next.labels, keep, label_seen(), i);
    let listed = next.labels_for_note(note_id, user_id);
    let owned = db.note_index(note_id, user_id);
    assert(note_at(db.notes, owned, note_id, user_id));
    assert(note_at(next.notes, owned, note_id, user_id));
    let k = choose|k: int| 0 <= k < listed.len() && listed[k] == label_seen()(next.labels[i]);
    assert(listed[k].id == label_id);
}

/// After a label is detached from a note, the labels listed for the note
/// no longer include it.
pub proof fn detached_label_is_not_listed(db: Db, note_id: i32, label_id: i32, user_id: i32)
    requires
        db.wf(),
        db.notes_labels_delete(note_id, label_id, user_id).1 is Ok,
    ensures
        forall|k: int|
            0 <= k < db.notes_labels_delete(note_id, label_id, user_id).0.labels_for_note(
                note_id,
                user_id,
            ).len() ==> (#[trigger] db.notes_labels_delete(
                note_id,
                label_id,
                user_id,
            ).0.labels_for_note(note_id, user_id)[k]).id != label_id,
{
    let next = db.notes_labels_delete(note_id, label_id, user_id).0;
    let at = db.note_label_index(note_id, label_id);
    assert(note_label_at(db.notes_labels, at, note_id, label_id));
    let listed = next.labels_for_note(note_id, user_id);
    let keep = label_on(next.notes_labels, note_id, user_id);
    assert forall|k: int| 0 <= k < listed.len() implies (#[trigger] listed[k]).id != label_id by {
        lemma_listed_row_is_kept(next.labels, keep, label_seen(), k);
        let i = choose|i: int|
            0 <= i < next.labels.len() && keep(#[trigger] next.labels[i]) && label_seen()(
                next.labels[i],
            ) == listed[k];
        if listed[k].id == label_id {
            let e = choose|e: int| note_label_at(next.notes_labels, e, note_id, label_id);
            assert(note_label_at(next.notes_labels, e, note_id, label_id));
            let origin = if e < at {
                e
            } else {
                e + 1
            };
            assert(next.notes_labels[e] == db.notes_labels[origin]);
            assert(note_label_at(db.notes_labels, origin, note_id, label_id));
            lemma_note_label_index(db, origin, note_id, label_id);
        }
    }
}

/// After a category is attached to a note, the categories listed for the
/// note include it.
pub proof fn attached_category_is_listed(db: Db, note_id: i32, category_id: i32, user_id: i32)
    requires
        db.wf(),
        db.notes_categories_new(note_id, category_id, user_id).1 is Ok,
    ensures
        exists|k: int|
            0 <= k < db.notes_categories_new(note_id, category_id, user_id).0.categories_for_note(
                note_id,
                user_id,
            ).len() && (#[trigger] db.notes_categories_new(
                note_id,
                category_id,
                user_id,
            ).0.categories_for_note(note_id, user_id)[k]).id == category_id,
{
    let next = db.notes_categories_new(note_id, category_id, user_id).0;
    let i = db.category_index(category_id, user_id);
    assert(category_at(db.categories, i, category_id, user_id));
    let keep = category_on(next.notes_categories, note_id, user_id);
    assert(note_category_at(
        next.notes_categories,
        db.notes_categories.len() as int,
        note_id,
        category_id,
    ));
    assert(keep(next.categories[i]));
    lemma_kept_row_is_listed(next.categories, keep, category_seen(), i);
    let listed = next.categories_for_note(note_id, user_id);
    let owned = db.note_index(note_id, user_id);
    assert(note_at(db.notes, owned, note_id, user_id));
    assert(note_at(next.notes, owned, note_id, user_id));
    let k = choose|k: int|
        0 <= k < listed.len() && listed[k] == category_seen()(next.categories[i]);
    assert(listed[k].id == category_id);
}

/// After a category is detached from a note, the categories listed for the
/// note no longer include it.
pub proof fn detached_category_is_not_listed(db: Db, note_id: i32, category_id: i32, user_id: i32)
    requires
        db.wf(),
        db.notes_categories_delete(note_id, category_id, user_id).1 is Ok,
    ensures
        forall|k: int|
            0 <= k < db.notes_categories_delete(note_id, category_id, user_id).0.categories_for_note(
                note_id,
                user_id,
            ).len() ==> (#[trigger] db.notes_categories_delete(
                note_id,
                category_id,
                user_id,
            ).0.categories_for_note(note_id, user_id)[k]).id != category_id,
{
    let next = db.notes_categories_delete(note_id, category_id, user_id).0;
    let at = db.note_category_index(note_id, category_id);
    assert(note_category_at(db.notes_categories, at, note_id, category_id));
    let listed = next.categories_for_note(note_id, user_id);
    let keep = category_on(next.notes_categories, note_id, user_id);
    assert forall|k: int| 0 <= k < listed.len() implies (#[trigger] listed[k]).id
        != category_id by {
        lemma_listed_row_is_kept(next.categories, keep, category_seen(), k);
        let i = choose|i: int|
            0 <= i < next.categories.len() && keep(#[trigger] next.categories[i])
                && category_seen()(next.categories[i]) == listed[k];
        if listed[k].id == category_id {
            let e = choose|e: int| note_category_at(next.notes_categories, e, note_id, category_id);
            assert(note_category_at(next.notes_categories, e, note_id, category_id));
            let origin = if e < at {
                e
            } else {
                e + 1
            };
            assert(next.notes_categories[e] == db.notes_categories[origin]);
            assert(note_category_at(db.notes_categories, origin, note_id, category_id));
            lemma_note_category_index(db, origin, note_id, category_id);
        }
    }
}

/// Whoever registers can log in. After a registration that succeeded, a
/// login with the same address and password is answered with 200 and a
/// token, provided a token can be issued at that time; the token is the one
/// signed for the new user's id in decimal, which reads back as that id;
/// and wherever the token decodes to the claims it was signed for, it
/// resolves to the new user at every time before its expiry.
pub proof fn register_then_login(
    db: Db,
    email: Seq<char>,
    password: Seq<char>,
    salt: Seq<u8>,
    secret: Seq<u8>,
    ttl: u64,
    now: u64,
    later: u64,
)
    requires
        db.wf(),
        register_spec(db, email, password, salt, secret, ttl, now).1.status == 201,
        token_issue(db.next_user, later, ttl, Some(secret)) is Ok,
    ensures
        ({
            let id = db.next_user;
            let registered = register_spec(db, email, password, salt, secret, ttl, now).0;
            let (logged_in, response) = login_spec(registered, email, password, secret, ttl, later);
            let token = token_issue(id, later, ttl, Some(secret))->Ok_0;
            &&& registered.users_get_by_email(email) is Ok
            &&& registered.users_get_by_email(email)->Ok_0.id == id
            &&& response == answered(200, token_message("Valid credentials"@, token))
            &&& jwt_encoding(dec_repr(id as int), (later + ttl) as u64, secret) == Some(token)
            &&& parse_i32_spec(dec_repr(id as int)) == Some(id)
            &&& forall|t: u64|
                t < later + ttl && jwt_decoding(token, secret) == Some(
                    (dec_repr(id as int), (later + ttl) as u64),
                ) ==> #[trigger] token_verify(token, t, secret) == Ok::<i32, AuthError>(id)
        }),
{
    let id = db.next_user;
    let digest = password_digest(password, salt)->0;
    let registered = register_spec(db, email, password, salt, secret, ttl, now).0;
    assert(registered == db.users_insert(email, digest, salt, now).0);
    lemma_users_insert_keeps_wf(db, email, digest, salt, now);
    let at = db.users.len() as int;
    assert(user_email_at(registered.users, at, email));
    lemma_email_index(registered, at, email);
    lemma_parse_i32_round_trip(id);
}

/// Whoever registers can log in at once: after a registration that
/// succeeded, a login at the same time with the same address and password
/// is answered with 200 and the token signed for the new user.
pub proof fn register_then_login_at_once(
    db: Db,
    email: Seq<char>,
    password: Seq<char>,
    salt: Seq<u8>,
    secret: Seq<u8>,
    ttl: u64,
    now: u64,
)
    requires
        db.wf(),
        register_spec(db, email, password, salt, secret, ttl, now).1.status == 201,
    ensures
        ({
            let registered = register_spec(db, email, password, salt, secret, ttl, now).0;
            let response = login_spec(registered, email, password, secret, ttl, now).1;
            &&& response.status == 200
            &&& response == answered(
                200,
                token_message(
                    "Valid credentials"@,
                    token_issue(db.next_user, now, ttl, Some(secret))->Ok_0,
                ),
            )
        }),
{
    register_then_login(db, email, password, salt, secret, ttl, now, now);
}

} // verus!
