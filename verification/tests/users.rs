use notes_api::error::ApiError;
use notes_api::model::claims::AuthConfig;
use notes_api::model::label::{Label, LabelWU};
use notes_api::model::note::{NewNote, Note, NoteWU};
use notes_api::model::note_label::NoteLabel;
use notes_api::model::store::Store;
use notes_api::model::user::{Credentials, IUser, User};
use notes_api::password::hash_password;

fn credentials(email: &str, password: &str) -> Credentials {
    Credentials { email: email.to_string(), password: password.to_string() }
}

const SALT: [u8; 16] = [3u8; 16];

#[test]
fn new_user_is_stored_with_a_digest() {
    let mut store = Store::new();
    let user = User::new(&mut store, credentials("a@x.com", "pw"), &SALT, 7).unwrap();
    assert_eq!(user.id, 1);
    assert_eq!(user.email, "a@x.com");
    assert_ne!(user.password, "pw");
    assert_eq!(user.password, hash_password("pw", &SALT).unwrap());
    assert_eq!(user.salt, SALT.to_vec());
    assert_eq!((user.created_at, user.updated_at, user.login), (7, 7, false));
    let read = User::get(&store, 1).unwrap();
    assert_eq!(read.email, "a@x.com");
    assert_eq!(read.password, user.password);
    let by_email = User::get_by_email(&store, "a@x.com").unwrap();
    assert_eq!(by_email.id, 1);
    assert_eq!(User::all(&store).len(), 1);
}

#[test]
fn taken_address_is_a_conflict() {
    let mut store = Store::new();
    User::new(&mut store, credentials("a@x.com", "pw"), &SALT, 0).unwrap();
    let again = User::new(&mut store, credentials("a@x.com", "other"), &SALT, 0);
    assert_eq!(again.unwrap_err(), ApiError::Conflict);
    assert_eq!(store.users.len(), 1);
    let other = User::new(&mut store, credentials("b@x.com", "pw"), &SALT, 0).unwrap();
    assert_eq!(other.id, 2);
}

#[test]
fn short_salt_is_a_validation_error() {
    let mut store = Store::new();
    let r = User::new(&mut store, credentials("a@x.com", "pw"), &[1, 2], 0);
    assert_eq!(r.unwrap_err(), ApiError::Validation);
    assert!(store.users.is_empty());
}

#[test]
fn unknown_user_is_not_found() {
    let mut store = Store::new();
    assert_eq!(User::get(&store, 1).unwrap_err(), ApiError::NotFound);
    assert_eq!(User::get_by_email(&store, "a@x.com").unwrap_err(), ApiError::NotFound);
    assert_eq!(User::set_login(&mut store, 1, true).unwrap_err(), ApiError::NotFound);
}

#[test]
fn login_flag_is_set_and_cleared() {
    let mut store = Store::new();
    User::new(&mut store, credentials("a@x.com", "pw"), &SALT, 0).unwrap();
    assert!(User::set_login(&mut store, 1, true).unwrap().login);
    assert!(User::get(&store, 1).unwrap().login);
    assert!(!User::set_login(&mut store, 1, false).unwrap().login);
    assert!(!User::get(&store, 1).unwrap().login);
}

#[test]
fn insert_takes_the_digest_as_given() {
    let mut store = Store::new();
    let user =
        User::insert(&mut store, "a@x.com".to_string(), "digest".to_string(), &SALT, 3).unwrap();
    assert_eq!(user.password, "digest");
    assert_eq!(user.id, 1);
    store.next_user = i32::MAX;
    let r = User::insert(&mut store, "b@x.com".to_string(), "digest".to_string(), &SALT, 3);
    assert_eq!(r.unwrap_err(), ApiError::Conflict);
}

#[test]
fn configuration_needs_both_settings() {
    let cfg = AuthConfig::from_vars(Some("s".to_string()), Some("50000".to_string())).unwrap();
    assert_eq!(cfg.secret, "s");
    assert_eq!(cfg.expiration, 50000);
    assert_eq!(
        AuthConfig::from_vars(None, Some("1".to_string())).unwrap_err(),
        ApiError::Config
    );
    assert_eq!(AuthConfig::from_vars(Some("s".to_string()), None).unwrap_err(), ApiError::Config);
    assert_eq!(
        AuthConfig::from_vars(Some("s".to_string()), Some("soon".to_string())).unwrap_err(),
        ApiError::Config
    );
    assert_eq!(
        AuthConfig::from_vars(Some("s".to_string()), Some("-1".to_string())).unwrap_err(),
        ApiError::Config
    );
}

#[test]
fn user_by_id_alone() {
    assert_eq!(IUser { id: 3 }, IUser { id: 3 });
    assert_ne!(IUser { id: 3 }, IUser { id: 4 });
}

#[test]
fn store_invariant_is_checked() {
    let mut store = Store::new();
    assert!(store.is_wf());
    User::new(&mut store, credentials("a@x.com", "pw"), &SALT, 0).unwrap();
    let n = Note::new(&mut store, NewNote { title: "t".to_string(), body: None }, 1, 0).unwrap();
    let l = Label::new(&mut store, "l", 1).unwrap();
    NoteLabel::new(&mut store, n.id, l.id, 1).unwrap();
    assert!(store.is_wf());

    let mut twice = Store::new();
    for _ in 0..2 {
        twice.notes.push(NoteWU {
            id: 1,
            title: String::new(),
            body: String::new(),
            created_at: 0,
            updated_at: 0,
            user_id: 1,
        });
    }
    twice.next_note = 2;
    assert!(!twice.is_wf());

    let mut ahead = Store::new();
    ahead.labels.push(LabelWU { id: 5, name: "l".to_string(), user_id: 1 });
    assert!(!ahead.is_wf());
    ahead.next_label = 6;
    assert!(ahead.is_wf());

    let mut dangling = Store::new();
    dangling.notes_labels.push(NoteLabel { id: 1, note_id: 1, label_id: 1 });
    dangling.next_note_label = 2;
    assert!(!dangling.is_wf());

    let mut shared = Store::new();
    User::new(&mut shared, credentials("a@x.com", "pw"), &SALT, 0).unwrap();
    let mut copy = User::get(&shared, 1).unwrap();
    copy.id = 2;
    shared.users.push(copy);
    shared.next_user = 3;
    assert!(!shared.is_wf());
}
