use notes_api::error::ApiError;
use notes_api::model::note::{NewNote, Note, UpdateNote};
use notes_api::model::store::Store;

fn new_note(title: &str, body: Option<&str>) -> NewNote {
    NewNote { title: title.to_string(), body: body.map(|b| b.to_string()) }
}

#[test]
fn created_note_gets_next_id_and_empty_body() {
    let mut store = Store::new();
    let first = Note::new(&mut store, new_note("t", None), 1, 100).unwrap();
    assert_eq!(first.id, 1);
    assert_eq!(first.title, "t");
    assert_eq!(first.body, "");
    assert_eq!(first.created_at, 100);
    assert_eq!(first.updated_at, 100);
    let second = Note::new(&mut store, new_note("u", Some("text")), 1, 101).unwrap();
    assert_eq!(second.id, 2);
    assert_eq!(second.body, "text");
}

#[test]
fn created_note_reads_back() {
    let mut store = Store::new();
    let made = Note::new(&mut store, new_note("title", Some("body")), 4, 50).unwrap();
    let read = Note::get(&store, made.id, 4).unwrap();
    assert_eq!(read.id, made.id);
    assert_eq!(read.title, "title");
    assert_eq!(read.body, "body");
    assert_eq!(read.created_at, 50);
    assert_eq!(read.updated_at, 50);
}

#[test]
fn note_of_another_user_is_not_found() {
    let mut store = Store::new();
    let made = Note::new(&mut store, new_note("private", None), 1, 0).unwrap();
    assert_eq!(Note::get(&store, made.id, 2).unwrap_err(), ApiError::NotFound);
    assert!(Note::all(&store, 2).is_empty());
    assert_eq!(Note::all(&store, 1).len(), 1);
    assert_eq!(
        Note::update(
            &mut store,
            UpdateNote { id: made.id, title: Some("x".to_string()), body: None },
            2,
            5
        )
        .unwrap_err(),
        ApiError::NotFound
    );
    assert_eq!(Note::delete(&mut store, made.id, 2).unwrap_err(), ApiError::NotFound);
    assert_eq!(Note::get(&store, made.id, 1).unwrap().title, "private");
}

#[test]
fn missing_note_is_not_found() {
    let store = Store::new();
    assert_eq!(Note::get(&store, 1, 1).unwrap_err(), ApiError::NotFound);
}

#[test]
fn list_keeps_only_the_owner_s_notes_in_order() {
    let mut store = Store::new();
    Note::new(&mut store, new_note("a1", None), 1, 0).unwrap();
    Note::new(&mut store, new_note("b1", None), 2, 0).unwrap();
    Note::new(&mut store, new_note("a2", None), 1, 0).unwrap();
    let mine: Vec<String> = Note::all(&store, 1).into_iter().map(|n| n.title).collect();
    assert_eq!(mine, vec!["a1".to_string(), "a2".to_string()]);
    let theirs: Vec<i32> = Note::all(&store, 2).into_iter().map(|n| n.id).collect();
    assert_eq!(theirs, vec![2]);
}

#[test]
fn update_changes_only_the_given_fields() {
    let mut store = Store::new();
    let made = Note::new(&mut store, new_note("t", Some("b")), 1, 10).unwrap();
    let titled = Note::update(
        &mut store,
        UpdateNote { id: made.id, title: Some("t2".to_string()), body: None },
        1,
        20,
    )
    .unwrap();
    assert_eq!(titled.title, "t2");
    assert_eq!(titled.body, "b");
    assert_eq!(titled.created_at, 10);
    assert_eq!(titled.updated_at, 20);
    let bodied = Note::update(
        &mut store,
        UpdateNote { id: made.id, title: None, body: Some("b2".to_string()) },
        1,
        30,
    )
    .unwrap();
    assert_eq!(bodied.title, "t2");
    assert_eq!(bodied.body, "b2");
    assert_eq!(bodied.updated_at, 30);
    let both = Note::update(
        &mut store,
        UpdateNote { id: made.id, title: Some("t3".to_string()), body: Some("b3".to_string()) },
        1,
        40,
    )
    .unwrap();
    assert_eq!(both.title, "t3");
    assert_eq!(both.body, "b3");
    let read = Note::get(&store, made.id, 1).unwrap();
    assert_eq!(read.title, "t3");
    assert_eq!(read.body, "b3");
    assert_eq!(read.updated_at, 40);
}

#[test]
fn update_never_moves_the_time_back() {
    let mut store = Store::new();
    let made = Note::new(&mut store, new_note("t", None), 1, 100).unwrap();
    let touched =
        Note::update(&mut store, UpdateNote { id: made.id, title: None, body: None }, 1, 40)
            .unwrap();
    assert_eq!(touched.created_at, 100);
    assert_eq!(touched.updated_at, 100);
    assert_eq!(touched.title, "t");
}

#[test]
fn update_of_a_missing_note_is_not_found() {
    let mut store = Store::new();
    let r = Note::update(&mut store, UpdateNote { id: 9, title: None, body: None }, 1, 0);
    assert_eq!(r.unwrap_err(), ApiError::NotFound);
}

#[test]
fn deleted_note_is_returned_and_gone() {
    let mut store = Store::new();
    let made = Note::new(&mut store, new_note("t", Some("b")), 1, 0).unwrap();
    let gone = Note::delete(&mut store, made.id, 1).unwrap();
    assert_eq!(gone.id, made.id);
    assert_eq!(gone.title, "t");
    assert_eq!(gone.body, "b");
    assert_eq!(Note::get(&store, made.id, 1).unwrap_err(), ApiError::NotFound);
    assert_eq!(Note::delete(&mut store, made.id, 1).unwrap_err(), ApiError::NotFound);
    let next = Note::new(&mut store, new_note("u", None), 1, 0).unwrap();
    assert_eq!(next.id, 2);
}

#[test]
fn exhausted_ids_are_a_conflict() {
    let mut store = Store::new();
    store.next_note = i32::MAX;
    let r = Note::new(&mut store, new_note("t", None), 1, 0);
    assert_eq!(r.unwrap_err(), ApiError::Conflict);
    assert!(store.notes.is_empty());
    assert_eq!(store.next_note, i32::MAX);
}
