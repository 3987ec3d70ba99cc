use notes_api::error::ApiError;
use notes_api::label_api::{get_all_labels, get_label_by_id};
use notes_api::model::category::Category;
use notes_api::model::label::Label;
use notes_api::model::store::Store;

#[test]
fn label_crud_is_scoped_by_owner() {
    let mut store = Store::new();
    let mine = Label::new(&mut store, "work", 1).unwrap();
    let theirs = Label::new(&mut store, "home", 2).unwrap();
    assert_eq!((mine.id, mine.name.as_str()), (1, "work"));
    assert_eq!((theirs.id, theirs.name.as_str()), (2, "home"));
    assert_eq!(Label::get(&store, mine.id, 1).unwrap().name, "work");
    assert_eq!(Label::get(&store, mine.id, 2).unwrap_err(), ApiError::NotFound);
    assert_eq!(Label::get(&store, 3, 1).unwrap_err(), ApiError::NotFound);
    let listed: Vec<i32> = Label::all(&store, 1).into_iter().map(|l| l.id).collect();
    assert_eq!(listed, vec![1]);
    let renamed =
        Label::update(&mut store, Label { id: mine.id, name: "job".to_string() }, 1).unwrap();
    assert_eq!(renamed.name, "job");
    assert_eq!(Label::get(&store, mine.id, 1).unwrap().name, "job");
    assert_eq!(
        Label::update(&mut store, Label { id: mine.id, name: "x".to_string() }, 2).unwrap_err(),
        ApiError::NotFound
    );
    assert_eq!(Label::delete(&mut store, mine.id, 2).unwrap_err(), ApiError::NotFound);
    let gone = Label::delete(&mut store, mine.id, 1).unwrap();
    assert_eq!(gone.name, "job");
    assert_eq!(Label::get(&store, mine.id, 1).unwrap_err(), ApiError::NotFound);
    assert_eq!(Label::get(&store, theirs.id, 2).unwrap().name, "home");
}

#[test]
fn category_crud_is_scoped_by_owner() {
    let mut store = Store::new();
    let mine = Category::new(&mut store, "work", 1).unwrap();
    let theirs = Category::new(&mut store, "home", 2).unwrap();
    assert_eq!((mine.id, mine.name.as_str()), (1, "work"));
    assert_eq!(Category::get(&store, mine.id, 1).unwrap().name, "work");
    assert_eq!(Category::get(&store, mine.id, 2).unwrap_err(), ApiError::NotFound);
    let listed: Vec<i32> = Category::all(&store, 2).into_iter().map(|c| c.id).collect();
    assert_eq!(listed, vec![theirs.id]);
    let renamed =
        Category::update(&mut store, Category { id: mine.id, name: "job".to_string() }, 1)
            .unwrap();
    assert_eq!(renamed.name, "job");
    assert_eq!(
        Category::update(&mut store, Category { id: mine.id, name: "x".to_string() }, 2)
            .unwrap_err(),
        ApiError::NotFound
    );
    assert_eq!(Category::delete(&mut store, mine.id, 2).unwrap_err(), ApiError::NotFound);
    assert_eq!(Category::delete(&mut store, mine.id, 1).unwrap().name, "job");
    assert_eq!(Category::get(&store, mine.id, 1).unwrap_err(), ApiError::NotFound);
}

#[test]
fn exhausted_label_ids_are_a_conflict() {
    let mut store = Store::new();
    store.next_label = i32::MAX;
    store.next_category = i32::MAX;
    assert_eq!(Label::new(&mut store, "l", 1).unwrap_err(), ApiError::Conflict);
    assert_eq!(Category::new(&mut store, "c", 1).unwrap_err(), ApiError::Conflict);
}

#[test]
fn sample_labels_are_four() {
    let labels = get_all_labels();
    let seen: Vec<(i32, &str)> = labels.iter().map(|l| (l.id, l.name.as_str())).collect();
    assert_eq!(seen, vec![(1, "Label 1"), (2, "Label 2"), (3, "Label 3"), (4, "Label 4")]);
    let one = get_label_by_id(9);
    assert_eq!((one.id, one.name.as_str()), (9, "Sample label"));
}
