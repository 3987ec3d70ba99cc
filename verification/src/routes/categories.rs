//! The routes of categories.

use vstd::prelude::*;
use vstd::string::*;
use vstd::utf8::encode_utf8;
use crate::auth::{access, token_text, validator};
use crate::error::{ApiError, AuthError};
use crate::model::claims::AuthConfig;
use crate::model::category::{Category, CategoryView, NewCategory};
use crate::model::store::{Db, Store};
use crate::routes::{answered, denied, deny, fail, failed, Body, BodyView, Response, ResponseView};

verus! {

/// The response that carries a category, or reports why there is none.
pub open spec fn category_answer(res: Result<CategoryView, ApiError>) -> ResponseView {
    match res {
        Ok(category) => answered(200, BodyView::Category(category)),
        Err(e) => failed(e),
    }
}

/// `POST /categories`: 200 with the new category.
pub open spec fn create_category_spec(db: Db, who: Result<i32, AuthError>, name: Seq<char>) -> (
    Db,
    ResponseView,
) {
    match who {
        Err(e) => (db, denied(e)),
        Ok(user_id) => {
            let (next, res) = db.categories_new(name, user_id);
            (next, category_answer(res))
        },
    }
}

/// `GET /categories/{id}`: 200 with the category.
pub open spec fn read_category_spec(db: Db, who: Result<i32, AuthError>, id: i32) -> ResponseView {
    match who {
        Err(e) => denied(e),
        Ok(user_id) => category_answer(db.categories_get(id, user_id)),
    }
}

/// `GET /categories`: 200 with the caller's categories.
pub open spec fn read_categories_spec(db: Db, who: Result<i32, AuthError>) -> ResponseView {
    match who {
        Err(e) => denied(e),
        Ok(user_id) => answered(200, BodyView::Categories(db.categories_all(user_id))),
    }
}

/// `PUT /categories`: 200 with the category as renamed.
pub open spec fn update_category_spec(
    db: Db,
    who: Result<i32, AuthError>,
    id: i32,
    name: Seq<char>,
) -> (Db, ResponseView) {
    match who {
        Err(e) => (db, denied(e)),
        Ok(user_id) => {
            let (next, res) = db.categories_update(id, name, user_id);
            (next, category_answer(res))
        },
    }
}

/// `DELETE /categories/{id}`: 200 with the category as it was.
pub open spec fn delete_category_spec(db: Db, who: Result<i32, AuthError>, id: i32) -> (
    Db,
    ResponseView,
) {
    match who {
        Err(e) => (db, denied(e)),
        Ok(user_id) => {
            let (next, res) = db.categories_delete(id, user_id);
            (next, category_answer(res))
        },
    }
}

fn answer_category(res: Result<Category, ApiError>) -> (r: Response)
    ensures
        r@ == category_answer(crate::model::store::outcome(res)),
{
    match res {
        Ok(category) => Response { status: 200, body: Body::Category(category) },
        Err(e) => fail(e),
    }
}

/// `POST /categories`: creates a category for the caller.
pub fn create_category(
    store: &mut Store,
    cfg: &AuthConfig,
    credentials: Option<&str>,
    category: NewCategory,
    now: u64,
) -> (r: Response)
    requires
        old(store)@.wf(),
    ensures
        final(store)@.wf(),
        (final(store)@, r@) == create_category_spec(
            old(store)@,
            access(token_text(credentials), encode_utf8(cfg.secret@), now),
            category.name@,
        ),
{
    match validator(credentials, cfg, now) {
        Ok(user_id) => answer_category(Category::new(store, category.name.as_str(), user_id)),
        Err(e) => deny(e),
    }
}

/// `GET /categories/{id}`: reads one category of the caller.
pub fn read_category(store: &Store, cfg: &AuthConfig, credentials: Option<&str>, id: i32, now: u64) -> (r:
    Response)
    requires
        store@.wf(),
    ensures
        r@ == read_category_spec(
            store@,
            access(token_text(credentials), encode_utf8(cfg.secret@), now),
            id,
        ),
{
    match validator(credentials, cfg, now) {
        Ok(user_id) => answer_category(Category::get(store, id, user_id)),
        Err(e) => deny(e),
    }
}

/// `GET /categories`: lists the categories of the caller.
pub fn read_categories(store: &Store, cfg: &AuthConfig, credentials: Option<&str>, now: u64) -> (r:
    Response)
    ensures
        r@ == read_categories_spec(
            store@,
            access(token_text(credentials), encode_utf8(cfg.secret@), now),
        ),
{
    match validator(credentials, cfg, now) {
        Ok(user_id) => Response { status: 200, body: Body::Categories(Category::all(store, user_id)) },
        Err(e) => deny(e),
    }
}

/// `PUT /categories`: renames a category of the caller.
pub fn update_category(
    store: &mut Store,
    cfg: &AuthConfig,
    credentials: Option<&str>,
    category: Category,
    now: u64,
) -> (r: Response)
    requires
        old(store)@.wf(),
    ensures
        final(store)@.wf(),
        (final(store)@, r@) == update_category_spec(
            old(store)@,
            access(token_text(credentials), encode_utf8(cfg.secret@), now),
            category.id,
            category.name@,
        ),
{
    match validator(credentials, cfg, now) {
        Ok(user_id) => answer_category(Category::update(store, category, user_id)),
        Err(e) => deny(e),
    }
}

/// `DELETE /categories/{id}`: deletes a category of the caller.
pub fn delete_category(
    store: &mut Store,
    cfg: &AuthConfig,
    credentials: Option<&str>,
    id: i32,
    now: u64,
) -> (r: Response)
    requires
        old(store)@.wf(),
    ensures
        final(store)@.wf(),
        (final(store)@, r@) == delete_category_spec(
            old(store)@,
            access(token_text(credentials), encode_utf8(cfg.secret@), now),
            id,
        ),
{
    match validator(credentials, cfg, now) {
        Ok(user_id) => answer_category(Category::delete(store, id, user_id)),
        Err(e) => deny(e),
    }
}

} // verus!
