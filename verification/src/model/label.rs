//! Labels: short names that a user attaches to notes.

use vstd::prelude::*;
use vstd::string::*;
use crate::error::ApiError;
use crate::model::note::{find_note, note_at};
use crate::model::note_label::{find_note_label, note_label_at};
use crate::model::note_label::NoteLabel;
use crate::model::store::{outcome, views, Db, Store};

verus! {

/// A label as its owner sees it.
#[derive(Debug)]
pub struct Label {
    pub id: i32,
    pub name: String,
}

/// The content of a [`Label`].
pub struct LabelView {
    pub id: i32,
    pub name: Seq<char>,
}

impl View for Label {
    type V = LabelView;

    open spec fn view(&self) -> LabelView {
        LabelView { id: self.id, name: self.name@ }
    }
}

/// A label together with the user who owns it: a row of the table.
#[derive(Debug)]
pub struct LabelWU {
    pub id: i32,
    pub name: String,
    pub user_id: i32,
}

/// The content of a [`LabelWU`].
pub struct LabelWUView {
    pub id: i32,
    pub name: Seq<char>,
    pub user_id: i32,
}

impl View for LabelWU {
    type V = LabelWUView;

    open spec fn view(&self) -> LabelWUView {
        LabelWUView { id: self.id, name: self.name@, user_id: self.user_id }
    }
}

impl LabelWUView {
    /// The row as its owner sees it.
    pub open spec fn label(self) -> LabelView {
        LabelView { id: self.id, name: self.name }
    }
}

impl LabelWU {
    /// The row as its owner sees it.
    pub fn label(&self) -> (r: Label)
        ensures
            r@ == self@.label(),
    {
        Label { id: self.id, name: self.name.clone() }
    }
}

/// What a request to create a label carries.
#[derive(Debug)]
pub struct NewLabel {
    pub name: String,
}

/// The invariant of the table: ids are positive, unique and below the id
/// handed out next.
pub open spec fn labels_wf(rows: Seq<LabelWUView>, next: i32) -> bool {
    &&& 1 <= next
    &&& forall|i: int| 0 <= i < rows.len() ==> 1 <= (#[trigger] rows[i]).id < next
    &&& forall|i: int, j: int|
        0 <= i < j < rows.len() ==> (#[trigger] rows[i]).id != (#[trigger] rows[j]).id
}

/// Whether row `i` is the label `id` and belongs to `user_id`.
pub open spec fn label_at(rows: Seq<LabelWUView>, i: int, id: i32, user_id: i32) -> bool {
    0 <= i < rows.len() && rows[i].id == id && rows[i].user_id == user_id
}

/// Whether row `i` is the label `id`, whoever owns it.
pub open spec fn label_id_at(rows: Seq<LabelWUView>, i: int, id: i32) -> bool {
    0 <= i < rows.len() && rows[i].id == id
}

/// Whether there is a label `id`, whoever owns it.
pub open spec fn label_known(rows: Seq<LabelWUView>, id: i32) -> bool {
    exists|i: int| label_id_at(rows, i, id)
}

/// The test that keeps the rows of one owner.
pub open spec fn label_of(user_id: i32) -> spec_fn(LabelWUView) -> bool {
    |r: LabelWUView| r.user_id == user_id
}

/// The test that keeps the rows of one owner that are attached to the note
/// `note_id`.
pub open spec fn label_on(edges: Seq<NoteLabel>, note_id: i32, user_id: i32) -> spec_fn(
    LabelWUView,
) -> bool {
    |r: LabelWUView| r.user_id == user_id && exists|i: int| note_label_at(edges, i, note_id, r.id)
}

/// The step from a row to what its owner sees.
pub open spec fn label_seen() -> spec_fn(LabelWUView) -> LabelView {
    |r: LabelWUView| r.label()
}

impl Db {
    /// Whether `user_id` owns a label with the id `id`.
    pub open spec fn has_label(self, id: i32, user_id: i32) -> bool {
        exists|i: int| label_at(self.labels, i, id, user_id)
    }

    /// The row of the label `id` of `user_id`, where there is one.
    pub open spec fn label_index(self, id: i32, user_id: i32) -> int {
        choose|i: int| label_at(self.labels, i, id, user_id)
    }

    /// The labels of `user_id`, oldest first.
    pub open spec fn labels_all(self, user_id: i32) -> Seq<LabelView> {
        self.labels.filter(label_of(user_id)).map_values(label_seen())
    }

    /// The label `id` as `user_id` sees it. A label of another user is not
    /// found, exactly as one that does not exist.
    pub open spec fn labels_get(self, id: i32, user_id: i32) -> Result<LabelView, ApiError> {
        if self.has_label(id, user_id) {
            Ok(self.labels[self.label_index(id, user_id)].label())
        } else {
            Err(ApiError::NotFound)
        }
    }

    /// The labels of `user_id` that are attached to the note `note_id`,
    /// oldest first; none where the note is not a note of `user_id`.
    pub open spec fn labels_for_note(self, note_id: i32, user_id: i32) -> Seq<LabelView> {
        if self.has_note(note_id, user_id) {
            self.labels.filter(label_on(self.notes_labels, note_id, user_id)).map_values(
                label_seen(),
            )
        } else {
            Seq::empty()
        }
    }

    /// Creating a label for `user_id`: the store afterwards and the answer.
    /// The label gets the next id. It fails, changing nothing, only when the
    /// ids are used up.
    pub open spec fn labels_new(self, name: Seq<char>, user_id: i32) -> (
        Db,
        Result<LabelView, ApiError>,
    ) {
        if self.next_label == i32::MAX {
            (self, Err(ApiError::Conflict))
        } else {
            let row = LabelWUView { id: self.next_label, name: name, user_id: user_id };
            (
                Db { labels: self.labels.push(row), next_label: (self.next_label + 1) as i32, ..self },
                Ok(row.label()),
            )
        }
    }

    /// Renaming the label `id` of `user_id`: the store afterwards and the
    /// answer.
    pub open spec fn labels_update(self, id: i32, name: Seq<char>, user_id: i32) -> (
        Db,
        Result<LabelView, ApiError>,
    ) {
        if self.has_label(id, user_id) {
            let i = self.label_index(id, user_id);
            let row = LabelWUView { name: name, ..self.labels[i] };
            (Db { labels: self.labels.update(i, row), ..self }, Ok(row.label()))
        } else {
            (self, Err(ApiError::NotFound))
        }
    }

    /// Deleting the label `id` of `user_id`: the store afterwards and the
    /// answer, which is the label as it was. The edges of the label go with
    /// it.
    pub open spec fn labels_delete(self, id: i32, user_id: i32) -> (Db, Result<LabelView, ApiError>) {
        if self.has_label(id, user_id) {
            let i = self.label_index(id, user_id);
            (
                Db {
                    labels: self.labels.remove(i),
                    notes_labels: self.notes_labels.filter(
                        crate::model::note_label::not_of_label(id),
                    ),
                    users_labels: self.users_labels.filter(
                        crate::model::user_label::not_of_label(id),
                    ),
                    ..self
                },
                Ok(self.labels[i].label()),
            )
        } else {
            (self, Err(ApiError::NotFound))
        }
    }
}

/// An owned label has exactly one row.
pub proof fn lemma_label_index(db: Db, i: int, id: i32, user_id: i32)
    requires
        labels_wf(db.labels, db.next_label),
        label_at(db.labels, i, id, user_id),
    ensures
        db.has_label(id, user_id),
        db.label_index(id, user_id) == i,
{
    let k = db.label_index(id, user_id);
    assert(label_at(db.labels, k, id, user_id));
    if k < i {
        assert(db.labels[k].id != db.labels[i].id);
    } else if i < k {
        assert(db.labels[i].id != db.labels[k].id);
    }
}

/// Looks for the row of the label `id` of `user_id`.
pub(crate) fn find_label(rows: &Vec<LabelWU>, id: i32, user_id: i32) -> (r: Option<usize>)
    ensures
        match r {
            Some(i) => label_at(views(rows@), i as int, id, user_id),
            None => forall|i: int| !label_at(views(rows@), i, id, user_id),
        },
{
    let mut i: usize = 0;
    while i < rows.len()
        invariant
            i <= rows.len(),
            forall|k: int| 0 <= k < i ==> !label_at(views(rows@), k, id, user_id),
        decreases rows.len() - i,
    {
        if rows[i].id == id && rows[i].user_id == user_id {
            return Some(i);
        }
        i = i + 1;
    }
    None
}

/// Taking a row out keeps the table's invariant.
pub proof fn lemma_label_remove_keeps_wf(rows: Seq<LabelWUView>, next: i32, at: int)
    requires
        labels_wf(rows, next),
        0 <= at < rows.len(),
    ensures
        labels_wf(rows.remove(at), next),
{
    let rest = rows.remove(at);
    assert forall|i: int| 0 <= i < rest.len() implies 1 <= (#[trigger] rest[i]).id < next by {
        if i < at {
            assert(rest[i] == rows[i]);
        } else {
            assert(rest[i] == rows[i + 1]);
        }
    }
    assert forall|i: int, j: int| 0 <= i < j < rest.len() implies (#[trigger] rest[i]).id != (
    #[trigger] rest[j]).id by {
        let a = if i < at { i } else { i + 1 };
        let b = if j < at { j } else { j + 1 };
        assert(rest[i] == rows[a]);
        assert(rest[j] == rows[b]);
        assert(rows[a].id != rows[b].id);
    }
}

/// A label stays known when a row is added.
pub proof fn lemma_label_known_push(rows: Seq<LabelWUView>, row: LabelWUView, id: i32)
    requires
        label_known(rows, id),
    ensures
        label_known(rows.push(row), id),
{
    let i = choose|i: int| label_id_at(rows, i, id);
    assert(label_id_at(rows.push(row), i, id));
}

/// A label stays known when a row is replaced by one with the same id.
pub proof fn lemma_label_known_update(rows: Seq<LabelWUView>, at: int, row: LabelWUView, id: i32)
    requires
        0 <= at < rows.len(),
        row.id == rows[at].id,
        label_known(rows, id),
    ensures
        label_known(rows.update(at, row), id),
{
    let i = choose|i: int| label_id_at(rows, i, id);
    assert(label_id_at(rows.update(at, row), i, id));
}

/// A label stays known when the row of another label is taken out.
pub proof fn lemma_label_known_remove(rows: Seq<LabelWUView>, at: int, id: i32)
    requires
        0 <= at < rows.len(),
        id != rows[at].id,
        label_known(rows, id),
    ensures
        label_known(rows.remove(at), id),
{
    let i = choose|i: int| label_id_at(rows, i, id);
    if i < at {
        assert(label_id_at(rows.remove(at), i, id));
    } else {
        assert(label_id_at(rows.remove(at), i - 1, id));
    }
}

/// Creating a label keeps the store's invariant.
pub proof fn lemma_labels_new_keeps_wf(db: Db, name: Seq<char>, user_id: i32)
    requires
        db.wf(),
    ensures
        db.labels_new(name, user_id).0.wf(),
{
    let next = db.labels_new(name, user_id).0;
    if db.next_label != i32::MAX {
        let row = next.labels[db.labels.len() as int];
        assert forall|i: int, j: int| 0 <= i < j < next.labels.len() implies (
        #[trigger] next.labels[i]).id != (#[trigger] next.labels[j]).id by {
            assert(next.labels[i] == db.labels[i]);
            if j < db.labels.len() {
                assert(next.labels[j] == db.labels[j]);
            }
        }
        assert forall|i: int| 0 <= i < next.labels.len() implies 1 <= (
        #[trigger] next.labels[i]).id < next.next_label by {
            if i < db.labels.len() {
                assert(next.labels[i] == db.labels[i]);
            }
        }
        crate::model::note_label::lemma_refer_after_label_push(
            db.notes_labels,
            db.notes,
            db.labels,
            row,
        );
        crate::model::user_label::lemma_refer_after_label_push(db.users_labels, db.labels, row);
    }
}

/// Renaming a label keeps the store's invariant.
pub proof fn lemma_labels_update_keeps_wf(db: Db, id: i32, name: Seq<char>, user_id: i32)
    requires
        db.wf(),
    ensures
        db.labels_update(id, name, user_id).0.wf(),
{
    let next = db.labels_update(id, name, user_id).0;
    if db.has_label(id, user_id) {
        let at = db.label_index(id, user_id);
        assert(label_at(db.labels, at, id, user_id));
        let row = next.labels[at];
        assert forall|i: int, j: int| 0 <= i < j < next.labels.len() implies (
        #[trigger] next.labels[i]).id != (#[trigger] next.labels[j]).id by {
            assert(db.labels[i].id != db.labels[j].id);
        }
        assert forall|i: int| 0 <= i < next.labels.len() implies 1 <= (
        #[trigger] next.labels[i]).id < next.next_label by {
            assert(1 <= db.labels[i].id < db.next_label);
        }
        crate::model::note_label::lemma_refer_after_label_update(
            db.notes_labels,
            db.notes,
            db.labels,
            at,
            row,
        );
        crate::model::user_label::lemma_refer_after_label_update(
            db.users_labels,
            db.labels,
            at,
            row,
        );
    }
}

/// Deleting a label keeps the store's invariant.
pub proof fn lemma_labels_delete_keeps_wf(db: Db, id: i32, user_id: i32)
    requires
        db.wf(),
    ensures
        db.labels_delete(id, user_id).0.wf(),
{
    if db.has_label(id, user_id) {
        let at = db.label_index(id, user_id);
        assert(label_at(db.labels, at, id, user_id));
        lemma_label_remove_keeps_wf(db.labels, db.next_label, at);
        crate::model::note_label::lemma_filter_keeps_wf(
            db.notes_labels,
            db.next_note_label,
            crate::model::note_label::not_of_label(id),
        );
        crate::model::note_label::lemma_refer_after_label_remove(
            db.notes_labels,
            db.notes,
            db.labels,
            at,
        );
        crate::model::user_label::lemma_filter_keeps_wf(
            db.users_labels,
            db.next_user_label,
            crate::model::user_label::not_of_label(id),
        );
        crate::model::user_label::lemma_refer_after_label_remove(db.users_labels, db.labels, at);
    }
}

/// Whether there is a label `id`, whoever owns it.
pub(crate) fn label_exists(rows: &Vec<LabelWU>, id: i32) -> (r: bool)
    ensures
        r == label_known(views(rows@), id),
{
    let mut i: usize = 0;
    while i < rows.len()
        invariant
            i <= rows.len(),
            forall|k: int| 0 <= k < i ==> !label_id_at(views(rows@), k, id),
        decreases rows.len() - i,
    {
        if rows[i].id == id {
            assert(label_id_at(views(rows@), i as int, id));
            return true;
        }
        i = i + 1;
    }
    false
}

/// Checks the table's invariant.
pub fn labels_ok(rows: &Vec<LabelWU>, next: i32) -> (r: bool)
    ensures
        r == labels_wf(views(rows@), next),
{
    if next < 1 {
        return false;
    }
    let ghost all = views(rows@);
    let mut i: usize = 0;
    while i < rows.len()
        invariant
            i <= rows.len(),
            1 <= next,
            all == views(rows@),
            forall|a: int| 0 <= a < i ==> 1 <= (#[trigger] all[a]).id < next,
            forall|a: int, b: int|
                0 <= a < b < i ==> (#[trigger] all[a]).id != (#[trigger] all[b]).id,
        decreases rows.len() - i,
    {
        if rows[i].id < 1 || rows[i].id >= next {
            assert(!(1 <= all[i as int].id < next));
            return false;
        }
        let mut j: usize = 0;
        while j < i
            invariant
                j <= i,
                i < rows.len(),
                all == views(rows@),
                forall|a: int| 0 <= a < j ==> (#[trigger] all[a]).id != all[i as int].id,
            decreases i - j,
        {
            if rows[j].id == rows[i].id {
                assert(all[j as int].id == all[i as int].id);
                return false;
            }
            j = j + 1;
        }
        i = i + 1;
    }
    true
}

impl Label {
    /// Every label of `user_id`, oldest first.
    pub fn all(store: &Store, user_id: i32) -> (r: Vec<Label>)
        ensures
            views(r@) == store@.labels_all(user_id),
    {
        let mut out: Vec<Label> = Vec::new();
        let mut i: usize = 0;
        let ghost rows = store@.labels;
        proof {
            assert(rows.take(0) =~= Seq::empty());
            assert(rows.take(0).filter(label_of(user_id)) =~= Seq::empty()) by {
                reveal(Seq::filter);
            }
            assert(views(out@) =~= rows.take(0).filter(label_of(user_id)).map_values(label_seen()));
        }
        while i < store.labels.len()
            invariant
                i <= store.labels.len(),
                rows == store@.labels,
                rows.len() == store.labels.len(),
                views(out@) == rows.take(i as int).filter(label_of(user_id)).map_values(
                    label_seen(),
                ),
            decreases store.labels.len() - i,
        {
            let ghost before = views(out@);
            let ghost kept = rows.take(i as int).filter(label_of(user_id));
            proof {
                rows.lemma_take_succ_push(i as int);
                rows.take(i as int).lemma_filter_push(rows[i as int], label_of(user_id));
                assert(rows[i as int] == store.labels[i as int]@);
            }
            if store.labels[i].user_id == user_id {
                out.push(store.labels[i].label());
                proof {
                    kept.lemma_push_map_commute(label_seen(), rows[i as int]);
                    assert(views(out@) =~= before.push(rows[i as int].label()));
                }
            }
            i = i + 1;
        }
        proof {
            assert(rows.take(i as int) =~= rows);
        }
        out
    }

    /// The label `id` as `user_id` sees it.
    pub fn get(store: &Store, id: i32, user_id: i32) -> (r: Result<Label, ApiError>)
        requires
            store@.wf(),
        ensures
            outcome(r) == store@.labels_get(id, user_id),
    {
        match find_label(&store.labels, id, user_id) {
            Some(i) => {
                proof {
                    lemma_label_index(store@, i as int, id, user_id);
                }
                Ok(store.labels[i].label())
            },
            None => Err(ApiError::NotFound),
        }
    }

    /// The labels of `user_id` that are attached to the note `note_id`,
    /// oldest first.
    pub fn get_labels_for_note(store: &Store, note_id: i32, user_id: i32) -> (r: Vec<Label>)
        ensures
            views(r@) == store@.labels_for_note(note_id, user_id),
    {
        let mut out: Vec<Label> = Vec::new();
        match find_note(&store.notes, note_id, user_id) {
            None => {
                assert(views(out@) =~= Seq::empty());
                return out;
            },
            Some(k) => {
                assert(note_at(store@.notes, k as int, note_id, user_id));
            },
        }
        let mut i: usize = 0;
        let ghost rows = store@.labels;
        let ghost keep = label_on(store@.notes_labels, note_id, user_id);
        proof {
            assert(rows.take(0) =~= Seq::empty());
            assert(rows.take(0).filter(keep) =~= Seq::empty()) by {
                reveal(Seq::filter);
            }
            assert(views(out@) =~= rows.take(0).filter(keep).map_values(label_seen()));
        }
        while i < store.labels.len()
            invariant
                i <= store.labels.len(),
                rows == store@.labels,
                rows.len() == store.labels.len(),
                keep == label_on(store@.notes_labels, note_id, user_id),
                store@.has_note(note_id, user_id),
                views(out@) == rows.take(i as int).filter(keep).map_values(label_seen()),
            decreases store.labels.len() - i,
        {
            let ghost before = views(out@);
            let ghost kept = rows.take(i as int).filter(keep);
            proof {
                rows.lemma_take_succ_push(i as int);
                rows.take(i as int).lemma_filter_push(rows[i as int], keep);
                assert(rows[i as int] == store.labels[i as int]@);
            }
            let attached = find_note_label(&store.notes_labels, note_id, store.labels[i].id);
            proof {
                match attached {
                    Some(k) => {
                        assert(note_label_at(store@.notes_labels, k as int, note_id, rows[i as int].id));
                    },
                    None => {},
                }
                assert(keep(rows[i as int]) == (rows[i as int].user_id == user_id
                    && attached.is_some()));
            }
            if store.labels[i].user_id == user_id && attached.is_some() {
                out.push(store.labels[i].label());
                proof {
                    kept.lemma_push_map_commute(label_seen(), rows[i as int]);
                    assert(views(out@) =~= before.push(rows[i as int].label()));
                }
            }
            i = i + 1;
        }
        proof {
            assert(rows.take(i as int) =~= rows);
        }
        out
    }

    /// Creates a label named `name` for `user_id` and returns it with its
    /// new id.
    pub fn new(store: &mut Store, name: &str, user_id: i32) -> (r: Result<Label, ApiError>)
        requires
            old(store)@.wf(),
        ensures
            final(store)@.wf(),
            (final(store)@, outcome(r)) == old(store)@.labels_new(name@, user_id),
    {
        if store.next_label == i32::MAX {
            return Err(ApiError::Conflict);
        }
        let id: i32 = store.next_label;
        let row = LabelWU { id: id, name: name.to_owned(), user_id: user_id };
        let seen = row.label();
        store.labels.push(row);
        store.next_label = id + 1;
        proof {
            let spec_db = old(store)@.labels_new(name@, user_id).0;
            assert(store@.labels =~= spec_db.labels);
            assert(store@ == spec_db);
            lemma_labels_new_keeps_wf(old(store)@, name@, user_id);
        }
        Ok(seen)
    }

    /// Renames the label `label.id` of `user_id` to `label.name`.
    pub fn update(store: &mut Store, label: Label, user_id: i32) -> (r: Result<Label, ApiError>)
        requires
            old(store)@.wf(),
        ensures
            final(store)@.wf(),
            (final(store)@, outcome(r)) == old(store)@.labels_update(label.id, label.name@, user_id),
    {
        match find_label(&store.labels, label.id, user_id) {
            Some(i) => {
                proof {
                    lemma_label_index(store@, i as int, label.id, user_id);
                }
                let row = LabelWU { id: label.id, name: label.name, user_id: user_id };
                let seen = row.label();
                store.labels.set(i, row);
                proof {
                    let spec_db = old(store)@.labels_update(label.id, label.name@, user_id).0;
                    assert(store@.labels =~= spec_db.labels);
                    assert(store@ == spec_db);
                    lemma_labels_update_keeps_wf(old(store)@, label.id, label.name@, user_id);
                }
                Ok(seen)
            },
            None => Err(ApiError::NotFound),
        }
    }

    /// Deletes the label `id` of `user_id`, with its edges, and returns it
    /// as it was.
    pub fn delete(store: &mut Store, id: i32, user_id: i32) -> (r: Result<Label, ApiError>)
        requires
            old(store)@.wf(),
        ensures
            final(store)@.wf(),
            (final(store)@, outcome(r)) == old(store)@.labels_delete(id, user_id),
    {
        match find_label(&store.labels, id, user_id) {
            Some(i) => {
                proof {
                    lemma_label_index(store@, i as int, id, user_id);
                    lemma_labels_delete_keeps_wf(store@, id, user_id);
                }
                let row = store.labels.remove(i);
                store.notes_labels = crate::model::note_label::without_label(&store.notes_labels, id);
                store.users_labels = crate::model::user_label::without_label(&store.users_labels, id);
                proof {
                    let spec_db = old(store)@.labels_delete(id, user_id).0;
                    assert(store@.labels =~= spec_db.labels);
                    assert(store@ == spec_db);
                }
                Ok(Label { id: row.id, name: row.name })
            },
            None => Err(ApiError::NotFound),
        }
    }
}

} // verus!
