use notes_api::error::ApiError;
use notes_api::model::category::Category;
use notes_api::model::label::Label;
use notes_api::model::note::{NewNote, Note};
use notes_api::model::note_category::NoteCategory;
use notes_api::model::note_label::NoteLabel;
use notes_api::model::store::Store;
use notes_api::model::user_label::UserLabel;

fn note(store: &mut Store, title: &str, user: i32) -> i32 {
    Note::new(store, NewNote { title: title.to_string(), body: None }, user, 0).unwrap().id
}

#[test]
fn attached_label_is_listed_and_detached_label_is_not() {
    let mut store = Store::new();
    let n = note(&mut store, "n", 1);
    let a = Label::new(&mut store, "a", 1).unwrap().id;
    let b = Label::new(&mut store, "b", 1).unwrap().id;
    assert!(Label::get_labels_for_note(&store, n, 1).is_empty());
    let edge = NoteLabel::new(&mut store, n, a, 1).unwrap();
    assert_eq!(edge, NoteLabel { id: 1, note_id: n, label_id: a });
    NoteLabel::new(&mut store, n, b, 1).unwrap();
    let listed: Vec<i32> =
        Label::get_labels_for_note(&store, n, 1).into_iter().map(|l| l.id).collect();
    assert_eq!(listed, vec![a, b]);
    let gone = NoteLabel::delete(&mut store, n, a, 1).unwrap();
    assert_eq!(gone, edge);
    let listed: Vec<i32> =
        Label::get_labels_for_note(&store, n, 1).into_iter().map(|l| l.id).collect();
    assert_eq!(listed, vec![b]);
    assert_eq!(NoteLabel::delete(&mut store, n, a, 1).unwrap_err(), ApiError::NotFound);
}

#[test]
fn attached_category_is_listed_and_detached_category_is_not() {
    let mut store = Store::new();
    let n = note(&mut store, "n", 1);
    let c = Category::new(&mut store, "c", 1).unwrap().id;
    let edge = NoteCategory::new(&mut store, n, c, 1).unwrap();
    assert_eq!(edge, NoteCategory { id: 1, note_id: n, category_id: c });
    let listed: Vec<i32> =
        Category::get_categories_for_note(&store, n, 1).into_iter().map(|l| l.id).collect();
    assert_eq!(listed, vec![c]);
    assert_eq!(NoteCategory::delete(&mut store, n, c, 1).unwrap(), edge);
    assert!(Category::get_categories_for_note(&store, n, 1).is_empty());
    assert_eq!(NoteCategory::delete(&mut store, n, c, 1).unwrap_err(), ApiError::NotFound);
}

#[test]
fn attaching_twice_is_a_conflict() {
    let mut store = Store::new();
    let n = note(&mut store, "n", 1);
    let a = Label::new(&mut store, "a", 1).unwrap().id;
    let c = Category::new(&mut store, "c", 1).unwrap().id;
    NoteLabel::new(&mut store, n, a, 1).unwrap();
    NoteCategory::new(&mut store, n, c, 1).unwrap();
    assert_eq!(NoteLabel::new(&mut store, n, a, 1).unwrap_err(), ApiError::Conflict);
    assert_eq!(NoteCategory::new(&mut store, n, c, 1).unwrap_err(), ApiError::Conflict);
    assert_eq!(store.notes_labels.len(), 1);
    assert_eq!(store.notes_categories.len(), 1);
}

#[test]
fn edges_need_a_note_and_a_label_of_the_caller() {
    let mut store = Store::new();
    let mine = note(&mut store, "mine", 1);
    let theirs = note(&mut store, "theirs", 2);
    let my_label = Label::new(&mut store, "a", 1).unwrap().id;
    let their_label = Label::new(&mut store, "b", 2).unwrap().id;
    assert_eq!(NoteLabel::new(&mut store, theirs, my_label, 1).unwrap_err(), ApiError::NotFound);
    assert_eq!(NoteLabel::new(&mut store, mine, their_label, 1).unwrap_err(), ApiError::NotFound);
    assert_eq!(NoteLabel::new(&mut store, 99, my_label, 1).unwrap_err(), ApiError::NotFound);
    assert_eq!(NoteLabel::new(&mut store, mine, 99, 1).unwrap_err(), ApiError::NotFound);
    NoteLabel::new(&mut store, theirs, their_label, 2).unwrap();
    assert_eq!(
        NoteLabel::delete(&mut store, theirs, their_label, 1).unwrap_err(),
        ApiError::NotFound
    );
    assert!(Label::get_labels_for_note(&store, theirs, 1).is_empty());
    assert_eq!(Label::get_labels_for_note(&store, theirs, 2).len(), 1);
    assert!(NoteLabel::all(&store, 1).is_empty());
    assert_eq!(NoteLabel::all(&store, 2).len(), 1);
    assert_eq!(NoteLabel::get(&store, 1, 1).unwrap_err(), ApiError::NotFound);
    assert_eq!(NoteLabel::get(&store, 1, 2).unwrap().label_id, their_label);
    assert_eq!(NoteLabel::get_last_inserted(&store, 2).unwrap().id, 1);
    assert_eq!(NoteLabel::get_last_inserted(&store, 1).unwrap_err(), ApiError::NotFound);
}

#[test]
fn deleting_a_note_or_a_label_removes_its_edges() {
    let mut store = Store::new();
    let n1 = note(&mut store, "n1", 1);
    let n2 = note(&mut store, "n2", 1);
    let a = Label::new(&mut store, "a", 1).unwrap().id;
    let b = Label::new(&mut store, "b", 1).unwrap().id;
    let c = Category::new(&mut store, "c", 1).unwrap().id;
    NoteLabel::new(&mut store, n1, a, 1).unwrap();
    NoteLabel::new(&mut store, n1, b, 1).unwrap();
    NoteLabel::new(&mut store, n2, a, 1).unwrap();
    NoteCategory::new(&mut store, n1, c, 1).unwrap();
    NoteCategory::new(&mut store, n2, c, 1).unwrap();
    UserLabel::new(&mut store, 1, a).unwrap();
    Note::delete(&mut store, n1, 1).unwrap();
    let left: Vec<(i32, i32)> =
        NoteLabel::all(&store, 1).into_iter().map(|e| (e.note_id, e.label_id)).collect();
    assert_eq!(left, vec![(n2, a)]);
    let left: Vec<i32> = NoteCategory::all(&store, 1).into_iter().map(|e| e.note_id).collect();
    assert_eq!(left, vec![n2]);
    Label::delete(&mut store, a, 1).unwrap();
    assert!(NoteLabel::all(&store, 1).is_empty());
    assert!(UserLabel::all(&store, 1).is_empty());
    Category::delete(&mut store, c, 1).unwrap();
    assert!(store.notes_categories.is_empty());
}

#[test]
fn edge_can_be_pointed_elsewhere() {
    let mut store = Store::new();
    let n1 = note(&mut store, "n1", 1);
    let n2 = note(&mut store, "n2", 1);
    let a = Label::new(&mut store, "a", 1).unwrap().id;
    let b = Label::new(&mut store, "b", 1).unwrap().id;
    let e1 = NoteLabel::new(&mut store, n1, a, 1).unwrap();
    let e2 = NoteLabel::new(&mut store, n2, b, 1).unwrap();
    let moved =
        NoteLabel::update(&mut store, NoteLabel { id: e1.id, note_id: n2, label_id: a }, 1)
            .unwrap();
    assert_eq!(moved, NoteLabel { id: e1.id, note_id: n2, label_id: a });
    assert_eq!(NoteLabel::get(&store, e1.id, 1).unwrap(), moved);
    assert_eq!(
        NoteLabel::update(&mut store, NoteLabel { id: e1.id, note_id: n2, label_id: b }, 1)
            .unwrap_err(),
        ApiError::Conflict
    );
    assert_eq!(NoteLabel::update(&mut store, e2, 1).unwrap(), e2);
    assert_eq!(
        NoteLabel::update(&mut store, NoteLabel { id: 77, note_id: n1, label_id: a }, 1)
            .unwrap_err(),
        ApiError::NotFound
    );
    assert_eq!(NoteLabel::update(&mut store, moved, 2).unwrap_err(), ApiError::NotFound);
}

#[test]
fn user_labels_belong_to_the_user() {
    let mut store = Store::new();
    let a = Label::new(&mut store, "a", 1).unwrap().id;
    let b = Label::new(&mut store, "b", 2).unwrap().id;
    let edge = UserLabel::new(&mut store, 1, a).unwrap();
    assert_eq!(edge, UserLabel { id: 1, user_id: 1, label_id: a });
    assert_eq!(UserLabel::new(&mut store, 1, a).unwrap_err(), ApiError::Conflict);
    assert_eq!(UserLabel::new(&mut store, 1, b).unwrap_err(), ApiError::NotFound);
    assert_eq!(UserLabel::get(&store, edge.id, 1).unwrap(), edge);
    assert_eq!(UserLabel::get(&store, edge.id, 2).unwrap_err(), ApiError::NotFound);
    assert_eq!(UserLabel::all(&store, 1), vec![edge]);
    assert!(UserLabel::all(&store, 2).is_empty());
    assert_eq!(UserLabel::delete(&mut store, 2, a).unwrap_err(), ApiError::NotFound);
    assert_eq!(UserLabel::delete(&mut store, 1, a).unwrap(), edge);
    assert_eq!(UserLabel::delete(&mut store, 1, a).unwrap_err(), ApiError::NotFound);
}

#[test]
fn note_methods_reach_its_labels_and_categories() {
    let mut store = Store::new();
    let made =
        Note::new(&mut store, NewNote { title: "n".to_string(), body: None }, 1, 0).unwrap();
    let a = Label::new(&mut store, "a", 1).unwrap().id;
    let c = Category::new(&mut store, "c", 1).unwrap().id;
    let edge = made.set_label(&mut store, a, 1).unwrap();
    assert_eq!(edge, NoteLabel { id: 1, note_id: made.id, label_id: a });
    assert_eq!(made.set_label(&mut store, a, 1).unwrap_err(), ApiError::Conflict);
    assert_eq!(made.set_label(&mut store, a, 2).unwrap_err(), ApiError::NotFound);
    let filed = made.set_category(&mut store, c, 1).unwrap();
    assert_eq!(filed, NoteCategory { id: 1, note_id: made.id, category_id: c });
    let labels: Vec<i32> = made.get_labels(&store, 1).into_iter().map(|l| l.id).collect();
    assert_eq!(labels, vec![a]);
    assert!(made.get_labels(&store, 2).is_empty());
    let categories: Vec<i32> =
        made.get_categories(&store, 1).into_iter().map(|l| l.id).collect();
    assert_eq!(categories, vec![c]);
    assert_eq!(made.get_label(&store, a, 1).unwrap().name, "a");
    assert_eq!(made.get_label(&store, a, 2).unwrap_err(), ApiError::NotFound);
    assert_eq!(made.get_category(&store, c, 1).unwrap().name, "c");
    assert_eq!(made.unset_label(&mut store, a, 1).unwrap(), edge);
    assert_eq!(made.unset_label(&mut store, a, 1).unwrap_err(), ApiError::NotFound);
    assert_eq!(made.unset_category(&mut store, c, 1).unwrap(), filed);
    assert!(made.get_labels(&store, 1).is_empty());
    assert!(made.get_categories(&store, 1).is_empty());
}
