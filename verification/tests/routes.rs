use notes_api::auth::{validator, AuthState};
use notes_api::error::{ApiError, AuthError};
use notes_api::model::category::{Category, NewCategory};
use notes_api::model::claims::{issue_token, verify_token, AuthConfig};
use notes_api::model::label::{Label, NewLabel};
use notes_api::model::note::{NewNote, UpdateNote};
use notes_api::model::store::Store;
use notes_api::model::user::Credentials;
use notes_api::routes::categories::{
    create_category, delete_category, read_categories, read_category, update_category,
};
use notes_api::routes::labels::{
    create_label, delete_label, read_label, read_labels, update_label,
};
use notes_api::routes::notes::{
    add_category_to_note, add_label_to_note, create_note, delete_category_from_note,
    delete_label_from_note, delete_note, read_categories_for_note, read_labels_for_note,
    read_note, read_notes, update_note,
};
use notes_api::routes::users::{login, register, validate};
use notes_api::routes::{Body, Response};

const SALT: [u8; 16] = [9u8; 16];

fn cfg() -> AuthConfig {
    AuthConfig { secret: "SECRETO".to_string(), expiration: 50000 }
}

fn credentials(email: &str, password: &str) -> Credentials {
    Credentials { email: email.to_string(), password: password.to_string() }
}

fn token_of(response: &Response) -> String {
    match &response.body {
        Body::Message { code, token: Some(token), .. } => {
            assert_eq!(code, "Ok");
            token.clone()
        }
        other => panic!("no token in {:?}", other),
    }
}

fn failure_of(response: &Response) -> ApiError {
    match &response.body {
        Body::Failure(e) => *e,
        other => panic!("no failure in {:?}", other),
    }
}

fn signed_up(store: &mut Store, email: &str) -> String {
    let r = register(store, &cfg(), credentials(email, "pw"), &SALT, 1000);
    assert_eq!(r.status, 201);
    token_of(&r)
}

#[test]
fn routes_test_index() {
    let r = notes_api::routes::root();
    assert_eq!(r.status, 200);
    match r.body {
        Body::Text(text) => assert_eq!(text.as_bytes(), b"Hello world, Rust!"),
        other => panic!("unexpected body {:?}", other),
    }
}

#[test]
fn notes_test_index() {
    let r = notes_api::routes::notes::root();
    assert_eq!(r.status, 200);
    match r.body {
        Body::Text(text) => assert_eq!(text.as_bytes(), b"Hello world, Rust!"),
        other => panic!("unexpected body {:?}", other),
    }
}

#[test]
fn register_login_create_delete_get() {
    let mut store = Store::new();
    let registered = register(&mut store, &cfg(), credentials("a@x.com", "pw"), &SALT, 1000);
    assert_eq!(registered.status, 201);
    let token = token_of(&registered);
    assert!(!token.is_empty());

    let wrong = login(&mut store, &cfg(), credentials("a@x.com", "not pw"), 1001);
    assert_eq!(wrong.status, 401);

    let created = create_note(
        &mut store,
        &cfg(),
        Some(&token),
        NewNote { title: "t".to_string(), body: None },
        1002,
    );
    assert_eq!(created.status, 201);
    let id = match created.body {
        Body::Note(note) => {
            assert_eq!(note.title, "t");
            assert_eq!(note.body, "");
            assert!(note.id >= 1);
            note.id
        }
        other => panic!("unexpected body {:?}", other),
    };

    let deleted = delete_note(&mut store, &cfg(), Some(&token), id, 1003);
    assert_eq!(deleted.status, 200);

    let read = read_note(&store, &cfg(), Some(&token), id, 1004);
    assert_eq!(read.status, 404);
    assert_eq!(failure_of(&read), ApiError::NotFound);
}

#[test]
fn register_then_login_gives_a_token_for_the_new_user() {
    let mut store = Store::new();
    signed_up(&mut store, "first@x.com");
    let registered = register(&mut store, &cfg(), credentials("a@x.com", "pw"), &SALT, 1000);
    assert_eq!(verify_token(&token_of(&registered), 1000, "SECRETO"), Ok(2));
    let logged_in = login(&mut store, &cfg(), credentials("a@x.com", "pw"), 2000);
    assert_eq!(logged_in.status, 200);
    let token = token_of(&logged_in);
    assert_eq!(verify_token(&token, 2000, "SECRETO"), Ok(2));
    assert_eq!(verify_token(&token, 51_999, "SECRETO"), Ok(2));
    assert_eq!(verify_token(&token, 52_000, "SECRETO"), Err(AuthError::Expired));
    assert_eq!(token, issue_token(2, 2000, 50000, Some("SECRETO")).unwrap());
    assert!(store.users[1].login);
    assert!(!store.users[0].login);
}

#[test]
fn login_is_refused_without_changing_anything() {
    let mut store = Store::new();
    signed_up(&mut store, "a@x.com");
    let unknown = login(&mut store, &cfg(), credentials("b@x.com", "pw"), 1);
    assert_eq!(unknown.status, 401);
    assert_eq!(failure_of(&unknown), ApiError::Auth(AuthError::Invalid));
    let wrong = login(&mut store, &cfg(), credentials("a@x.com", "PW"), 1);
    assert_eq!(wrong.status, 401);
    assert_eq!(failure_of(&wrong), ApiError::Auth(AuthError::Invalid));
    assert!(!store.users[0].login);
}

#[test]
fn registering_twice_is_a_conflict() {
    let mut store = Store::new();
    signed_up(&mut store, "a@x.com");
    let again = register(&mut store, &cfg(), credentials("a@x.com", "pw2"), &SALT, 1);
    assert_eq!(again.status, 409);
    assert_eq!(failure_of(&again), ApiError::Conflict);
    assert_eq!(store.users.len(), 1);
}

#[test]
fn registration_is_undone_when_no_token_can_be_issued() {
    let mut store = Store::new();
    let far = AuthConfig { secret: "s".to_string(), expiration: u64::MAX };
    let r = register(&mut store, &far, credentials("a@x.com", "pw"), &SALT, 1);
    assert_eq!(r.status, 500);
    assert_eq!(failure_of(&r), ApiError::Config);
    assert!(store.users.is_empty());
    assert_eq!(store.next_user, 1);
    let bad_salt = register(&mut store, &cfg(), credentials("a@x.com", "pw"), &[1], 1);
    assert_eq!(bad_salt.status, 400);
    assert!(store.users.is_empty());
}

#[test]
fn guard_turns_requests_away_with_401() {
    let mut store = Store::new();
    let token = signed_up(&mut store, "a@x.com");
    let note = || NewNote { title: "t".to_string(), body: None };

    let missing = create_note(&mut store, &cfg(), None, note(), 1000);
    assert_eq!(missing.status, 401);
    assert_eq!(failure_of(&missing), ApiError::Auth(AuthError::Missing));

    let garbled = create_note(&mut store, &cfg(), Some("garbage"), note(), 1000);
    assert_eq!(garbled.status, 401);
    assert_eq!(failure_of(&garbled), ApiError::Auth(AuthError::Invalid));

    let expired = create_note(&mut store, &cfg(), Some(&token), note(), 51_000);
    assert_eq!(expired.status, 401);
    assert_eq!(failure_of(&expired), ApiError::Auth(AuthError::Expired));

    let forged = issue_token(1, 1000, 50000, Some("another secret")).unwrap();
    let refused = create_note(&mut store, &cfg(), Some(&forged), note(), 1000);
    assert_eq!(refused.status, 401);
    assert_eq!(failure_of(&refused), ApiError::Auth(AuthError::Invalid));

    assert!(store.notes.is_empty());
    assert_eq!(store.next_note, 1);
    assert_eq!(read_notes(&store, &cfg(), None, 1000).status, 401);
    assert_eq!(delete_note(&mut store, &cfg(), None, 1, 1000).status, 401);
    assert_eq!(validate(&cfg(), None, 1000).status, 401);
}

#[test]
fn guard_state_machine() {
    let token = issue_token(5, 0, 100, Some("SECRETO")).unwrap();
    let start = AuthState::Unauthenticated;
    assert_eq!(start.next(None, &cfg(), 1), AuthState::Rejected(AuthError::Missing));
    let noticed = start.next(Some(&token), &cfg(), 1);
    assert_eq!(noticed, AuthState::Verifying);
    assert_eq!(noticed.next(Some(&token), &cfg(), 1), AuthState::Authenticated(5));
    assert_eq!(noticed.next(Some(&token), &cfg(), 100), AuthState::Rejected(AuthError::Expired));
    assert_eq!(noticed.next(Some("x"), &cfg(), 1), AuthState::Rejected(AuthError::Invalid));
    let done = AuthState::Authenticated(5);
    assert_eq!(done.next(None, &cfg(), 1), done);
    assert_eq!(validator(Some(&token), &cfg(), 99), Ok(5));
    assert_eq!(validator(Some(&token), &cfg(), 100), Err(AuthError::Expired));
    assert_eq!(validator(None, &cfg(), 0), Err(AuthError::Missing));
}

#[test]
fn validate_acknowledges_a_valid_token() {
    let mut store = Store::new();
    let token = signed_up(&mut store, "a@x.com");
    let r = validate(&cfg(), Some(&token), 1000);
    assert_eq!(r.status, 201);
    assert_eq!(token_of(&r), "algo");
}

#[test]
fn notes_of_one_user_are_hidden_from_another() {
    let mut store = Store::new();
    let a = signed_up(&mut store, "a@x.com");
    let b = signed_up(&mut store, "b@x.com");
    let created = create_note(
        &mut store,
        &cfg(),
        Some(&a),
        NewNote { title: "secret".to_string(), body: Some("body".to_string()) },
        1000,
    );
    assert_eq!(created.status, 201);
    let read = read_note(&store, &cfg(), Some(&b), 1, 1000);
    assert_eq!(read.status, 404);
    match read_notes(&store, &cfg(), Some(&b), 1000).body {
        Body::Notes(notes) => assert!(notes.is_empty()),
        other => panic!("unexpected body {:?}", other),
    }
    match read_notes(&store, &cfg(), Some(&a), 1000).body {
        Body::Notes(notes) => assert_eq!(notes.len(), 1),
        other => panic!("unexpected body {:?}", other),
    }
    let patch = UpdateNote { id: 1, title: Some("mine".to_string()), body: None };
    assert_eq!(update_note(&mut store, &cfg(), Some(&b), patch, 1000).status, 404);
    assert_eq!(delete_note(&mut store, &cfg(), Some(&b), 1, 1000).status, 404);
    let patch = UpdateNote { id: 1, title: Some("mine".to_string()), body: None };
    let updated = update_note(&mut store, &cfg(), Some(&a), patch, 2000);
    assert_eq!(updated.status, 200);
    match updated.body {
        Body::Note(note) => {
            assert_eq!(note.title, "mine");
            assert_eq!(note.body, "body");
            assert_eq!(note.created_at, 1000);
            assert_eq!(note.updated_at, 2000);
        }
        other => panic!("unexpected body {:?}", other),
    }
}

#[test]
fn label_routes() {
    let mut store = Store::new();
    let a = signed_up(&mut store, "a@x.com");
    let b = signed_up(&mut store, "b@x.com");
    let made =
        create_label(&mut store, &cfg(), Some(&a), NewLabel { name: "l".to_string() }, 1000);
    assert_eq!(made.status, 200);
    assert_eq!(read_label(&store, &cfg(), Some(&a), 1, 1000).status, 200);
    assert_eq!(read_label(&store, &cfg(), Some(&b), 1, 1000).status, 404);
    match read_labels(&store, &cfg(), Some(&a), 1000).body {
        Body::Labels(labels) => assert_eq!(labels.len(), 1),
        other => panic!("unexpected body {:?}", other),
    }
    let renamed = Label { id: 1, name: "m".to_string() };
    let r = update_label(&mut store, &cfg(), Some(&a), renamed, 1000);
    assert_eq!(r.status, 200);
    match r.body {
        Body::Label(label) => assert_eq!(label.name, "m"),
        other => panic!("unexpected body {:?}", other),
    }
    assert_eq!(delete_label(&mut store, &cfg(), Some(&b), 1, 1000).status, 404);
    assert_eq!(delete_label(&mut store, &cfg(), Some(&a), 1, 1000).status, 200);
    assert_eq!(read_label(&store, &cfg(), Some(&a), 1, 1000).status, 404);
    assert_eq!(read_labels(&store, &cfg(), None, 1000).status, 401);
}

#[test]
fn category_routes() {
    let mut store = Store::new();
    let a = signed_up(&mut store, "a@x.com");
    let b = signed_up(&mut store, "b@x.com");
    let made = create_category(
        &mut store,
        &cfg(),
        Some(&a),
        NewCategory { name: "c".to_string() },
        1000,
    );
    assert_eq!(made.status, 200);
    assert_eq!(read_category(&store, &cfg(), Some(&a), 1, 1000).status, 200);
    assert_eq!(read_category(&store, &cfg(), Some(&b), 1, 1000).status, 404);
    match read_categories(&store, &cfg(), Some(&a), 1000).body {
        Body::Categories(categories) => assert_eq!(categories.len(), 1),
        other => panic!("unexpected body {:?}", other),
    }
    let renamed = Category { id: 1, name: "d".to_string() };
    assert_eq!(update_category(&mut store, &cfg(), Some(&a), renamed, 1000).status, 200);
    assert_eq!(delete_category(&mut store, &cfg(), Some(&b), 1, 1000).status, 404);
    assert_eq!(delete_category(&mut store, &cfg(), Some(&a), 1, 1000).status, 200);
    assert_eq!(read_categories(&store, &cfg(), None, 1000).status, 401);
}

#[test]
fn edge_routes() {
    let mut store = Store::new();
    let a = signed_up(&mut store, "a@x.com");
    let b = signed_up(&mut store, "b@x.com");
    let note = NewNote { title: "n".to_string(), body: None };
    assert_eq!(create_note(&mut store, &cfg(), Some(&a), note, 1000).status, 201);
    let label = NewLabel { name: "l".to_string() };
    assert_eq!(create_label(&mut store, &cfg(), Some(&a), label, 1000).status, 200);
    let category = NewCategory { name: "c".to_string() };
    assert_eq!(create_category(&mut store, &cfg(), Some(&a), category, 1000).status, 200);

    assert_eq!(add_label_to_note(&mut store, &cfg(), Some(&b), 1, 1, 1000).status, 404);
    assert_eq!(add_label_to_note(&mut store, &cfg(), Some(&a), 1, 1, 1000).status, 200);
    assert_eq!(add_label_to_note(&mut store, &cfg(), Some(&a), 1, 1, 1000).status, 409);
    assert_eq!(add_category_to_note(&mut store, &cfg(), Some(&a), 1, 1, 1000).status, 200);
    assert_eq!(add_category_to_note(&mut store, &cfg(), None, 1, 1, 1000).status, 401);

    match read_labels_for_note(&store, &cfg(), Some(&a), 1, 1000).body {
        Body::Labels(labels) => assert_eq!(labels.len(), 1),
        other => panic!("unexpected body {:?}", other),
    }
    match read_labels_for_note(&store, &cfg(), Some(&b), 1, 1000).body {
        Body::Labels(labels) => assert!(labels.is_empty()),
        other => panic!("unexpected body {:?}", other),
    }
    match read_categories_for_note(&store, &cfg(), Some(&a), 1, 1000).body {
        Body::Categories(categories) => assert_eq!(categories.len(), 1),
        other => panic!("unexpected body {:?}", other),
    }

    assert_eq!(delete_label_from_note(&mut store, &cfg(), Some(&b), 1, 1, 1000).status, 404);
    assert_eq!(delete_label_from_note(&mut store, &cfg(), Some(&a), 1, 1, 1000).status, 200);
    assert_eq!(delete_label_from_note(&mut store, &cfg(), Some(&a), 1, 1, 1000).status, 404);
    assert_eq!(delete_category_from_note(&mut store, &cfg(), Some(&a), 1, 1, 1000).status, 200);
    match read_labels_for_note(&store, &cfg(), Some(&a), 1, 1000).body {
        Body::Labels(labels) => assert!(labels.is_empty()),
        other => panic!("unexpected body {:?}", other),
    }
}

#[test]
fn failures_map_to_their_status() {
    assert_eq!(ApiError::NotFound.status(), 404);
    assert_eq!(ApiError::Validation.status(), 400);
    assert_eq!(ApiError::Auth(AuthError::Invalid).status(), 401);
    assert_eq!(ApiError::Auth(AuthError::Expired).status(), 401);
    assert_eq!(ApiError::Auth(AuthError::Missing).status(), 401);
    assert_eq!(ApiError::Conflict.status(), 409);
    assert_eq!(ApiError::Config.status(), 500);
}
