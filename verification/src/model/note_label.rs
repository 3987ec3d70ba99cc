//! The edges between notes and labels: attaching a label to a note,
//! detaching it, and listing the edges.

use vstd::prelude::*;
use crate::error::ApiError;
use crate::model::label::{
    find_label, label_at, label_exists, label_id_at, label_known, lemma_label_known_push,
    lemma_label_known_remove, lemma_label_known_update, LabelWU, LabelWUView,
};
use crate::model::note::{
    find_note, lemma_note_known_push, lemma_note_known_remove, lemma_note_known_update, note_at,
    note_exists, note_id_at, note_known, NoteWU, NoteWUView,
};
use crate::model::store::{outcome, views, Db, Store};

verus! {

/// One edge: the label `label_id` is attached to the note `note_id`.
#[derive(Clone, Copy, Debug, PartialEq, Eq, Structural)]
pub struct NoteLabel {
    pub id: i32,
    pub note_id: i32,
    pub label_id: i32,
}

impl View for NoteLabel {
    type V = NoteLabel;

    open spec fn view(&self) -> NoteLabel {
        *self
    }
}

/// The invariant of the edge table: ids are positive, unique and below the
/// id handed out next, and no (note, label) pair occurs twice.
pub open spec fn notes_labels_wf(rows: Seq<NoteLabel>, next: i32) -> bool {
    &&& 1 <= next
    &&& forall|i: int| 0 <= i < rows.len() ==> 1 <= (#[trigger] rows[i]).id < next
    &&& forall|i: int, j: int|
        0 <= i < j < rows.len() ==> (#[trigger] rows[i]).id != (#[trigger] rows[j]).id
    &&& forall|i: int, j: int|
        0 <= i < j < rows.len() ==> !((#[trigger] rows[i]).note_id == (#[trigger] rows[j]).note_id
            && rows[i].label_id == rows[j].label_id)
}

/// Every edge joins a note and a label that exist.
pub open spec fn notes_labels_refer(
    edges: Seq<NoteLabel>,
    notes: Seq<NoteWUView>,
    labels: Seq<LabelWUView>,
) -> bool {
    forall|i: int|
        0 <= i < edges.len() ==> note_known(notes, (#[trigger] edges[i]).note_id) && label_known(
            labels,
            edges[i].label_id,
        )
}

/// Whether row `i` is the edge between `note_id` and `label_id`.
pub open spec fn note_label_at(rows: Seq<NoteLabel>, i: int, note_id: i32, label_id: i32) -> bool {
    0 <= i < rows.len() && rows[i].note_id == note_id && rows[i].label_id == label_id
}

/// Whether row `i` is the edge with the id `id`.
pub open spec fn note_label_id_at(rows: Seq<NoteLabel>, i: int, id: i32) -> bool {
    0 <= i < rows.len() && rows[i].id == id
}

/// The test that keeps the edges of every note but `note_id`.
pub open spec fn not_of_note(note_id: i32) -> spec_fn(NoteLabel) -> bool {
    |e: NoteLabel| e.note_id != note_id
}

/// The test that keeps the edges of every label but `label_id`.
pub open spec fn not_of_label(label_id: i32) -> spec_fn(NoteLabel) -> bool {
    |e: NoteLabel| e.label_id != label_id
}

/// The test that keeps the edges whose note belongs to `user_id`.
pub open spec fn edge_of(db: Db, user_id: i32) -> spec_fn(NoteLabel) -> bool {
    |e: NoteLabel| db.has_note(e.note_id, user_id)
}

impl Db {
    /// Whether the label `label_id` is attached to the note `note_id`.
    pub open spec fn has_note_label(self, note_id: i32, label_id: i32) -> bool {
        exists|i: int| note_label_at(self.notes_labels, i, note_id, label_id)
    }

    /// The row of the edge between `note_id` and `label_id`, where there is
    /// one.
    pub open spec fn note_label_index(self, note_id: i32, label_id: i32) -> int {
        choose|i: int| note_label_at(self.notes_labels, i, note_id, label_id)
    }

    /// Whether there is an edge with the id `id`.
    pub open spec fn has_note_label_id(self, id: i32) -> bool {
        exists|i: int| note_label_id_at(self.notes_labels, i, id)
    }

    /// The row of the edge with the id `id`, where there is one.
    pub open spec fn note_label_id_index(self, id: i32) -> int {
        choose|i: int| note_label_id_at(self.notes_labels, i, id)
    }

    /// The edges of the notes of `user_id`, oldest first.
    pub open spec fn notes_labels_all(self, user_id: i32) -> Seq<NoteLabel> {
        self.notes_labels.filter(edge_of(self, user_id))
    }

    /// The edge with the id `id`, where its note belongs to `user_id`.
    pub open spec fn notes_labels_get(self, id: i32, user_id: i32) -> Result<NoteLabel, ApiError> {
        if self.has_note_label_id(id) && self.has_note(
            self.notes_labels[self.note_label_id_index(id)].note_id,
            user_id,
        ) {
            Ok(self.notes_labels[self.note_label_id_index(id)])
        } else {
            Err(ApiError::NotFound)
        }
    }

    /// The edge that was inserted last, where it is still there and its note
    /// belongs to `user_id`.
    pub open spec fn notes_labels_last(self, user_id: i32) -> Result<NoteLabel, ApiError> {
        self.notes_labels_get((self.next_note_label - 1) as i32, user_id)
    }

    /// Attaching the label `label_id` to the note `note_id` for `user_id`:
    /// the store afterwards and the answer. Both the note and the label
    /// must belong to `user_id`, else nothing is found; a pair that is
    /// attached already is a conflict, and so is an id that cannot be
    /// handed out.
    pub open spec fn notes_labels_new(self, note_id: i32, label_id: i32, user_id: i32) -> (
        Db,
        Result<NoteLabel, ApiError>,
    ) {
        if !self.has_note(note_id, user_id) || !self.has_label(label_id, user_id) {
            (self, Err(ApiError::NotFound))
        } else if self.has_note_label(note_id, label_id) || self.next_note_label == i32::MAX {
            (self, Err(ApiError::Conflict))
        } else {
            let edge = NoteLabel { id: self.next_note_label, note_id: note_id, label_id: label_id };
            (
                Db {
                    notes_labels: self.notes_labels.push(edge),
                    next_note_label: (self.next_note_label + 1) as i32,
                    ..self
                },
                Ok(edge),
            )
        }
    }

    /// Detaching the label `label_id` from the note `note_id` for
    /// `user_id`: the store afterwards and the answer, which is the edge as
    /// it was. Nothing is found unless the note belongs to `user_id` and the
    /// label is attached to it.
    pub open spec fn notes_labels_delete(self, note_id: i32, label_id: i32, user_id: i32) -> (
        Db,
        Result<NoteLabel, ApiError>,
    ) {
        if self.has_note(note_id, user_id) && self.has_note_label(note_id, label_id) {
            let i = self.note_label_index(note_id, label_id);
            (Db { notes_labels: self.notes_labels.remove(i), ..self }, Ok(self.notes_labels[i]))
        } else {
            (self, Err(ApiError::NotFound))
        }
    }

    /// Pointing the edge `edge.id` at the note and the label that `edge`
    /// names, for `user_id`: the store afterwards and the answer. Nothing is
    /// found unless the edge exists and its note, the new note and the new
    /// label all belong to `user_id`; a pair that another edge holds is a
    /// conflict.
    pub open spec fn notes_labels_update(self, edge: NoteLabel, user_id: i32) -> (
        Db,
        Result<NoteLabel, ApiError>,
    ) {
        if !self.has_note_label_id(edge.id) || !self.has_note(
            self.notes_labels[self.note_label_id_index(edge.id)].note_id,
            user_id,
        ) || !self.has_note(edge.note_id, user_id) || !self.has_label(edge.label_id, user_id) {
            (self, Err(ApiError::NotFound))
        } else if self.has_note_label(edge.note_id, edge.label_id) && self.note_label_index(
            edge.note_id,
            edge.label_id,
        ) != self.note_label_id_index(edge.id) {
            (self, Err(ApiError::Conflict))
        } else {
            (
                Db {
                    notes_labels: self.notes_labels.update(self.note_label_id_index(edge.id), edge),
                    ..self
                },
                Ok(edge),
            )
        }
    }
}

/// A pair has at most one edge.
pub proof fn lemma_note_label_index(db: Db, i: int, note_id: i32, label_id: i32)
    requires
        notes_labels_wf(db.notes_labels, db.next_note_label),
        note_label_at(db.notes_labels, i, note_id, label_id),
    ensures
        db.has_note_label(note_id, label_id),
        db.note_label_index(note_id, label_id) == i,
{
    let k = db.note_label_index(note_id, label_id);
    assert(note_label_at(db.notes_labels, k, note_id, label_id));
    if k < i {
        assert(!(db.notes_labels[k].note_id == db.notes_labels[i].note_id
            && db.notes_labels[k].label_id == db.notes_labels[i].label_id));
    } else if i < k {
        assert(!(db.notes_labels[i].note_id == db.notes_labels[k].note_id
            && db.notes_labels[i].label_id == db.notes_labels[k].label_id));
    }
}

/// An id has at most one edge.
pub proof fn lemma_note_label_id_index(db: Db, i: int, id: i32)
    requires
        notes_labels_wf(db.notes_labels, db.next_note_label),
        note_label_id_at(db.notes_labels, i, id),
    ensures
        db.has_note_label_id(id),
        db.note_label_id_index(id) == i,
{
    let k = db.note_label_id_index(id);
    assert(note_label_id_at(db.notes_labels, k, id));
    if k < i {
        assert(db.notes_labels[k].id != db.notes_labels[i].id);
    } else if i < k {
        assert(db.notes_labels[i].id != db.notes_labels[k].id);
    }
}

/// Dropping edges keeps the table's invariant, and adds no edge.
pub proof fn lemma_filter_keeps_wf(rows: Seq<NoteLabel>, next: i32, keep: spec_fn(NoteLabel) -> bool)
    requires
        notes_labels_wf(rows, next),
    ensures
        notes_labels_wf(rows.filter(keep), next),
        forall|k: int|
            0 <= k < rows.filter(keep).len() ==> rows.contains(#[trigger] rows.filter(keep)[k]),
    decreases rows.len(),
{
    reveal(Seq::filter);
    if rows.len() > 0 {
        let init = rows.drop_last();
        let last = rows.last();
        assert forall|i: int| 0 <= i < init.len() implies init[i] == rows[i] by {}
        assert(notes_labels_wf(init, next));
        lemma_filter_keeps_wf(init, next, keep);
        let kept = init.filter(keep);
        assert forall|k: int| 0 <= k < kept.len() implies rows.contains(#[trigger] kept[k])
            && kept[k].id != last.id && !(kept[k].note_id == last.note_id && kept[k].label_id
            == last.label_id) by {
            assert(init.contains(kept[k]));
            let m = choose|m: int| 0 <= m < init.len() && init[m] == kept[k];
            assert(rows[m] == kept[k]);
            assert(rows[m].id != rows[rows.len() - 1].id);
        }
        if keep(last) {
            let all = kept.push(last);
            assert(rows.filter(keep) == all);
            assert(rows.contains(last)) by {
                assert(rows[rows.len() - 1] == last);
            }
            assert forall|k: int| 0 <= k < all.len() implies rows.contains(#[trigger] all[k]) by {
                if k < kept.len() {
                    assert(all[k] == kept[k]);
                }
            }
            assert forall|i: int, j: int| 0 <= i < j < all.len() implies (#[trigger] all[i]).id != (
            #[trigger] all[j]).id && !(all[i].note_id == all[j].note_id && all[i].label_id
                == all[j].label_id) by {
                assert(all[i] == kept[i]);
                if j < kept.len() {
                    assert(all[j] == kept[j]);
                }
            }
            assert forall|i: int| 0 <= i < all.len() implies 1 <= (#[trigger] all[i]).id < next by {
                if i < kept.len() {
                    assert(all[i] == kept[i]);
                } else {
                    assert(all[i] == rows[rows.len() - 1]);
                }
            }
        } else {
            assert(rows.filter(keep) == kept);
        }
    }
}

/// A new edge with the next id and a pair that no edge holds keeps the
/// table's invariant.
pub proof fn lemma_push_keeps_wf(rows: Seq<NoteLabel>, next: i32, edge: NoteLabel)
    requires
        notes_labels_wf(rows, next),
        next < i32::MAX,
        edge.id == next,
        forall|i: int| !note_label_at(rows, i, edge.note_id, edge.label_id),
    ensures
        notes_labels_wf(rows.push(edge), (next + 1) as i32),
{
    let all = rows.push(edge);
    assert forall|i: int, j: int| 0 <= i < j < all.len() implies (#[trigger] all[i]).id != (
    #[trigger] all[j]).id && !(all[i].note_id == all[j].note_id && all[i].label_id
        == all[j].label_id) by {
        assert(all[i] == rows[i]);
        if j < rows.len() {
            assert(all[j] == rows[j]);
        } else {
            assert(!note_label_at(rows, i, edge.note_id, edge.label_id));
        }
    }
    assert forall|i: int| 0 <= i < all.len() implies 1 <= (#[trigger] all[i]).id < next + 1 by {
        if i < rows.len() {
            assert(all[i] == rows[i]);
        }
    }
}

/// Pointing an edge at a pair that no other edge holds keeps the table's
/// invariant.
pub proof fn lemma_update_keeps_wf(rows: Seq<NoteLabel>, next: i32, at: int, edge: NoteLabel)
    requires
        notes_labels_wf(rows, next),
        0 <= at < rows.len(),
        rows[at].id == edge.id,
        forall|i: int| note_label_at(rows, i, edge.note_id, edge.label_id) ==> i == at,
    ensures
        notes_labels_wf(rows.update(at, edge), next),
{
    let all = rows.update(at, edge);
    assert forall|i: int, j: int| 0 <= i < j < all.len() implies (#[trigger] all[i]).id != (
    #[trigger] all[j]).id && !(all[i].note_id == all[j].note_id && all[i].label_id
        == all[j].label_id) by {
        assert(rows[i].id != rows[j].id);
        if i == at {
            assert(note_label_at(rows, j, edge.note_id, edge.label_id) ==> j == at);
        } else if j == at {
            assert(note_label_at(rows, i, edge.note_id, edge.label_id) ==> i == at);
        } else {
            assert(all[i] == rows[i] && all[j] == rows[j]);
        }
    }
    assert forall|i: int| 0 <= i < all.len() implies 1 <= (#[trigger] all[i]).id < next by {
        assert(1 <= rows[i].id < next);
    }
}

/// Taking a row out keeps the table's invariant.
pub proof fn lemma_remove_keeps_wf(rows: Seq<NoteLabel>, next: i32, at: int)
    requires
        notes_labels_wf(rows, next),
        0 <= at < rows.len(),
    ensures
        notes_labels_wf(rows.remove(at), next),
{
    let rest = rows.remove(at);
    assert forall|i: int| 0 <= i < rest.len() implies 1 <= (#[trigger] rest[i]).id < next by {
        if i < at {
            assert(rest[i] == rows[i]);
        } else {
            assert(rest[i] == rows[i + 1]);
        }
    }
    assert forall|i: int, j: int| 0 <= i < j < rest.len() implies (#[trigger] rest[i]).id != (
    #[trigger] rest[j]).id && !(rest[i].note_id == rest[j].note_id && rest[i].label_id
        == rest[j].label_id) by {
        let a = if i < at { i } else { i + 1 };
        let b = if j < at { j } else { j + 1 };
        assert(rest[i] == rows[a]);
        assert(rest[j] == rows[b]);
        assert(rows[a].id != rows[b].id);
    }
}

/// The edges keep their notes when a note is added.
pub proof fn lemma_refer_after_note_push(
    edges: Seq<NoteLabel>,
    notes: Seq<NoteWUView>,
    labels: Seq<LabelWUView>,
    row: NoteWUView,
)
    requires
        notes_labels_refer(edges, notes, labels),
    ensures
        notes_labels_refer(edges, notes.push(row), labels),
{
    assert forall|i: int| 0 <= i < edges.len() implies note_known(
        notes.push(row),
        (#[trigger] edges[i]).note_id,
    ) && label_known(labels, edges[i].label_id) by {
        lemma_note_known_push(notes, row, edges[i].note_id);
    }
}

/// The edges keep their notes when a note is changed.
pub proof fn lemma_refer_after_note_update(
    edges: Seq<NoteLabel>,
    notes: Seq<NoteWUView>,
    labels: Seq<LabelWUView>,
    at: int,
    row: NoteWUView,
)
    requires
        notes_labels_refer(edges, notes, labels),
        0 <= at < notes.len(),
        row.id == notes[at].id,
    ensures
        notes_labels_refer(edges, notes.update(at, row), labels),
{
    assert forall|i: int| 0 <= i < edges.len() implies note_known(
        notes.update(at, row),
        (#[trigger] edges[i]).note_id,
    ) && label_known(labels, edges[i].label_id) by {
        lemma_note_known_update(notes, at, row, edges[i].note_id);
    }
}

/// The edges that are left when a note goes, with its edges, keep their
/// notes.
pub proof fn lemma_refer_after_note_remove(
    edges: Seq<NoteLabel>,
    notes: Seq<NoteWUView>,
    labels: Seq<LabelWUView>,
    at: int,
)
    requires
        notes_labels_refer(edges, notes, labels),
        0 <= at < notes.len(),
    ensures
        notes_labels_refer(edges.filter(not_of_note(notes[at].id)), notes.remove(at), labels),
{
    let keep = not_of_note(notes[at].id);
    let kept = edges.filter(keep);
    assert forall|k: int| 0 <= k < kept.len() implies note_known(
        notes.remove(at),
        (#[trigger] kept[k]).note_id,
    ) && label_known(labels, kept[k].label_id) by {
        edges.lemma_filter_pred(keep, k);
        assert(kept.contains(kept[k]));
        edges.lemma_filter_contains_rev(keep, kept[k]);
        let m = choose|m: int| 0 <= m < edges.len() && edges[m] == kept[k];
        assert(note_known(notes, edges[m].note_id));
        lemma_note_known_remove(notes, at, kept[k].note_id);
    }
}

/// The edges keep their labels when a label is added.
pub proof fn lemma_refer_after_label_push(
    edges: Seq<NoteLabel>,
    notes: Seq<NoteWUView>,
    labels: Seq<LabelWUView>,
    row: LabelWUView,
)
    requires
        notes_labels_refer(edges, notes, labels),
    ensures
        notes_labels_refer(edges, notes, labels.push(row)),
{
    assert forall|i: int| 0 <= i < edges.len() implies note_known(
        notes,
        (#[trigger] edges[i]).note_id,
    ) && label_known(labels.push(row), edges[i].label_id) by {
        lemma_label_known_push(labels, row, edges[i].label_id);
    }
}

/// The edges keep their labels when a label is changed.
pub proof fn lemma_refer_after_label_update(
    edges: Seq<NoteLabel>,
    notes: Seq<NoteWUView>,
    labels: Seq<LabelWUView>,
    at: int,
    row: LabelWUView,
)
    requires
        notes_labels_refer(edges, notes, labels),
        0 <= at < labels.len(),
        row.id == labels[at].id,
    ensures
        notes_labels_refer(edges, notes, labels.update(at, row)),
{
    assert forall|i: int| 0 <= i < edges.len() implies note_known(
        notes,
        (#[trigger] edges[i]).note_id,
    ) && label_known(labels.update(at, row), edges[i].label_id) by {
        lemma_label_known_update(labels, at, row, edges[i].label_id);
    }
}

/// The edges that are left when a label goes, with its edges, keep their
/// labels.
pub proof fn lemma_refer_after_label_remove(
    edges: Seq<NoteLabel>,
    notes: Seq<NoteWUView>,
    labels: Seq<LabelWUView>,
    at: int,
)
    requires
        notes_labels_refer(edges, notes, labels),
        0 <= at < labels.len(),
    ensures
        notes_labels_refer(edges.filter(not_of_label(labels[at].id)), notes, labels.remove(at)),
{
    let keep = not_of_label(labels[at].id);
    let kept = edges.filter(keep);
    assert forall|k: int| 0 <= k < kept.len() implies note_known(
        notes,
        (#[trigger] kept[k]).note_id,
    ) && label_known(labels.remove(at), kept[k].label_id) by {
        edges.lemma_filter_pred(keep, k);
        assert(kept.contains(kept[k]));
        edges.lemma_filter_contains_rev(keep, kept[k]);
        let m = choose|m: int| 0 <= m < edges.len() && edges[m] == kept[k];
        assert(label_known(labels, edges[m].label_id));
        lemma_label_known_remove(labels, at, kept[k].label_id);
    }
}

/// Attaching keeps the store's invariant.
pub proof fn lemma_notes_labels_new_keeps_wf(db: Db, note_id: i32, label_id: i32, user_id: i32)
    requires
        db.wf(),
    ensures
        db.notes_labels_new(note_id, label_id, user_id).0.wf(),
{
    let (next, res) = db.notes_labels_new(note_id, label_id, user_id);
    if res is Ok {
        let edge = res->Ok_0;
        lemma_push_keeps_wf(db.notes_labels, db.next_note_label, edge);
        let n = db.note_index(note_id, user_id);
        assert(note_at(db.notes, n, note_id, user_id));
        assert(note_id_at(db.notes, n, note_id));
        let l = db.label_index(label_id, user_id);
        assert(label_at(db.labels, l, label_id, user_id));
        assert(label_id_at(db.labels, l, label_id));
        let all = db.notes_labels.push(edge);
        assert forall|i: int| 0 <= i < all.len() implies note_known(
            db.notes,
            (#[trigger] all[i]).note_id,
        ) && label_known(db.labels, all[i].label_id) by {
            if i < db.notes_labels.len() {
                assert(all[i] == db.notes_labels[i]);
            }
        }
    }
}

/// Detaching keeps the store's invariant.
pub proof fn lemma_notes_labels_delete_keeps_wf(db: Db, note_id: i32, label_id: i32, user_id: i32)
    requires
        db.wf(),
    ensures
        db.notes_labels_delete(note_id, label_id, user_id).0.wf(),
{
    let (next, res) = db.notes_labels_delete(note_id, label_id, user_id);
    if res is Ok {
        let at = db.note_label_index(note_id, label_id);
        assert(note_label_at(db.notes_labels, at, note_id, label_id));
        lemma_remove_keeps_wf(db.notes_labels, db.next_note_label, at);
        let rest = db.notes_labels.remove(at);
        assert forall|i: int| 0 <= i < rest.len() implies note_known(
            db.notes,
            (#[trigger] rest[i]).note_id,
        ) && label_known(db.labels, rest[i].label_id) by {
            if i < at {
                assert(rest[i] == db.notes_labels[i]);
            } else {
                assert(rest[i] == db.notes_labels[i + 1]);
            }
        }
    }
}

/// Pointing an edge elsewhere keeps the store's invariant.
pub proof fn lemma_notes_labels_update_keeps_wf(db: Db, edge: NoteLabel, user_id: i32)
    requires
        db.wf(),
    ensures
        db.notes_labels_update(edge, user_id).0.wf(),
{
    let (next, res) = db.notes_labels_update(edge, user_id);
    if res is Ok {
        let at = db.note_label_id_index(edge.id);
        assert(note_label_id_at(db.notes_labels, at, edge.id));
        assert forall|i: int|
            note_label_at(db.notes_labels, i, edge.note_id, edge.label_id) implies i == at by {
            lemma_note_label_index(db, i, edge.note_id, edge.label_id);
        }
        lemma_update_keeps_wf(db.notes_labels, db.next_note_label, at, edge);
        let n = db.note_index(edge.note_id, user_id);
        assert(note_at(db.notes, n, edge.note_id, user_id));
        assert(note_id_at(db.notes, n, edge.note_id));
        let l = db.label_index(edge.label_id, user_id);
        assert(label_at(db.labels, l, edge.label_id, user_id));
        assert(label_id_at(db.labels, l, edge.label_id));
        let all = db.notes_labels.update(at, edge);
        assert forall|i: int| 0 <= i < all.len() implies note_known(
            db.notes,
            (#[trigger] all[i]).note_id,
        ) && label_known(db.labels, all[i].label_id) by {
            if i != at {
                assert(all[i] == db.notes_labels[i]);
            }
        }
    }
}

/// Looks for the row of the edge between `note_id` and `label_id`.
pub(crate) fn find_note_label(rows: &Vec<NoteLabel>, note_id: i32, label_id: i32) -> (r: Option<
    usize,
>)
    ensures
        match r {
            Some(i) => note_label_at(rows@, i as int, note_id, label_id),
            None => forall|i: int| !note_label_at(rows@, i, note_id, label_id),
        },
{
    let mut i: usize = 0;
    while i < rows.len()
        invariant
            i <= rows.len(),
            forall|k: int| 0 <= k < i ==> !note_label_at(rows@, k, note_id, label_id),
        decreases rows.len() - i,
    {
        if rows[i].note_id == note_id && rows[i].label_id == label_id {
            return Some(i);
        }
        i = i + 1;
    }
    None
}

/// Looks for the row of the edge with the id `id`.
pub(crate) fn find_note_label_id(rows: &Vec<NoteLabel>, id: i32) -> (r: Option<usize>)
    ensures
        match r {
            Some(i) => note_label_id_at(rows@, i as int, id),
            None => forall|i: int| !note_label_id_at(rows@, i, id),
        },
{
    let mut i: usize = 0;
    while i < rows.len()
        invariant
            i <= rows.len(),
            forall|k: int| 0 <= k < i ==> !note_label_id_at(rows@, k, id),
        decreases rows.len() - i,
    {
        if rows[i].id == id {
            return Some(i);
        }
        i = i + 1;
    }
    None
}

/// The edges of every note but `note_id`, in their order.
pub(crate) fn without_note(rows: &Vec<NoteLabel>, note_id: i32) -> (r: Vec<NoteLabel>)
    ensures
        r@ == rows@.filter(not_of_note(note_id)),
{
    let mut out: Vec<NoteLabel> = Vec::new();
    let mut i: usize = 0;
    proof {
        assert(rows@.take(0) =~= Seq::empty());
        assert(rows@.take(0).filter(not_of_note(note_id)) =~= Seq::empty()) by {
            reveal(Seq::filter);
        }
    }
    while i < rows.len()
        invariant
            i <= rows.len(),
            out@ == rows@.take(i as int).filter(not_of_note(note_id)),
        decreases rows.len() - i,
    {
        proof {
            rows@.lemma_take_succ_push(i as int);
            rows@.take(i as int).lemma_filter_push(rows@[i as int], not_of_note(note_id));
        }
        if rows[i].note_id != note_id {
            out.push(rows[i]);
        }
        i = i + 1;
    }
    proof {
        assert(rows@.take(i as int) =~= rows@);
    }
    out
}

/// The edges of every label but `label_id`, in their order.
pub(crate) fn without_label(rows: &Vec<NoteLabel>, label_id: i32) -> (r: Vec<NoteLabel>)
    ensures
        r@ == rows@.filter(not_of_label(label_id)),
{
    let mut out: Vec<NoteLabel> = Vec::new();
    let mut i: usize = 0;
    proof {
        assert(rows@.take(0) =~= Seq::empty());
        assert(rows@.take(0).filter(not_of_label(label_id)) =~= Seq::empty()) by {
            reveal(Seq::filter);
        }
    }
    while i < rows.len()
        invariant
            i <= rows.len(),
            out@ == rows@.take(i as int).filter(not_of_label(label_id)),
        decreases rows.len() - i,
    {
        proof {
            rows@.lemma_take_succ_push(i as int);
            rows@.take(i as int).lemma_filter_push(rows@[i as int], not_of_label(label_id));
        }
        if rows[i].label_id != label_id {
            out.push(rows[i]);
        }
        i = i + 1;
    }
    proof {
        assert(rows@.take(i as int) =~= rows@);
    }
    out
}

/// Checks the table's invariant.
pub fn notes_labels_ok(rows: &Vec<NoteLabel>, next: i32) -> (r: bool)
    ensures
        r == notes_labels_wf(rows@, next),
{
    if next < 1 {
        return false;
    }
    let mut i: usize = 0;
    while i < rows.len()
        invariant
            i <= rows.len(),
            1 <= next,
            forall|a: int| 0 <= a < i ==> 1 <= (#[trigger] rows@[a]).id < next,
            forall|a: int, b: int|
                0 <= a < b < i ==> (#[trigger] rows@[a]).id != (#[trigger] rows@[b]).id,
            forall|a: int, b: int|
                0 <= a < b < i ==> !((#[trigger] rows@[a]).note_id == (#[trigger] rows@[b]).note_id
                    && rows@[a].label_id == rows@[b].label_id),
        decreases rows.len() - i,
    {
        if rows[i].id < 1 || rows[i].id >= next {
            assert(!(1 <= rows@[i as int].id < next));
            return false;
        }
        let mut j: usize = 0;
        while j < i
            invariant
                j <= i,
                i < rows.len(),
                forall|a: int| 0 <= a < j ==> (#[trigger] rows@[a]).id != rows@[i as int].id,
                forall|a: int|
                    0 <= a < j ==> !((#[trigger] rows@[a]).note_id == rows@[i as int].note_id
                        && rows@[a].label_id == rows@[i as int].label_id),
            decreases i - j,
        {
            if rows[j].id == rows[i].id || (rows[j].note_id == rows[i].note_id && rows[j].label_id
                == rows[i].label_id) {
                assert(rows@[j as int].id == rows@[i as int].id || (rows@[j as int].note_id
                    == rows@[i as int].note_id && rows@[j as int].label_id == rows@[i as int].label_id));
                return false;
            }
            j = j + 1;
        }
        i = i + 1;
    }
    true
}

/// Checks that every edge joins a note and a label that exist.
pub fn notes_labels_refer_ok(edges: &Vec<NoteLabel>, notes: &Vec<NoteWU>, labels: &Vec<LabelWU>) -> (r:
    bool)
    ensures
        r == notes_labels_refer(edges@, views(notes@), views(labels@)),
{
    let mut i: usize = 0;
    while i < edges.len()
        invariant
            i <= edges.len(),
            forall|k: int|
                0 <= k < i ==> note_known(views(notes@), (#[trigger] edges@[k]).note_id)
                    && label_known(views(labels@), edges@[k].label_id),
        decreases edges.len() - i,
    {
        if !note_exists(notes, edges[i].note_id) || !label_exists(labels, edges[i].label_id) {
            assert(!(note_known(views(notes@), edges@[i as int].note_id) && label_known(
                views(labels@),
                edges@[i as int].label_id,
            )));
            return false;
        }
        i = i + 1;
    }
    true
}

impl NoteLabel {
    /// Every edge of the notes of `user_id`, oldest first.
    pub fn all(store: &Store, user_id: i32) -> (r: Vec<NoteLabel>)
        ensures
            r@ == store@.notes_labels_all(user_id),
    {
        let mut out: Vec<NoteLabel> = Vec::new();
        let mut i: usize = 0;
        let ghost rows = store@.notes_labels;
        let ghost keep = edge_of(store@, user_id);
        proof {
            assert(rows.take(0) =~= Seq::empty());
            assert(rows.take(0).filter(keep) =~= Seq::empty()) by {
                reveal(Seq::filter);
            }
        }
        while i < store.notes_labels.len()
            invariant
                i <= store.notes_labels.len(),
                rows == store@.notes_labels,
                keep == edge_of(store@, user_id),
                out@ == rows.take(i as int).filter(keep),
            decreases store.notes_labels.len() - i,
        {
            proof {
                rows.lemma_take_succ_push(i as int);
                rows.take(i as int).lemma_filter_push(rows[i as int], keep);
            }
            let edge = store.notes_labels[i];
            let owner_row = find_note(&store.notes, edge.note_id, user_id);
            proof {
                match owner_row {
                    Some(k) => {
                        assert(note_at(store@.notes, k as int, edge.note_id, user_id));
                    },
                    None => {},
                }
                assert(keep(edge) == store@.has_note(edge.note_id, user_id));
            }
            if owner_row.is_some() {
                out.push(edge);
            }
            i = i + 1;
        }
        proof {
            assert(rows.take(i as int) =~= rows);
        }
        out
    }

    /// The edge with the id `id`, where its note belongs to `user_id`.
    pub fn get(store: &Store, id: i32, user_id: i32) -> (r: Result<NoteLabel, ApiError>)
        requires
            store@.wf(),
        ensures
            outcome(r) == store@.notes_labels_get(id, user_id),
    {
        match find_note_label_id(&store.notes_labels, id) {
            Some(i) => {
                proof {
                    lemma_note_label_id_index(store@, i as int, id);
                }
                let edge = store.notes_labels[i];
                if find_note(&store.notes, edge.note_id, user_id).is_some() {
                    Ok(edge)
                } else {
                    Err(ApiError::NotFound)
                }
            },
            None => Err(ApiError::NotFound),
        }
    }

    /// The edge that was inserted last, where it is still there and its note
    /// belongs to `user_id`.
    pub fn get_last_inserted(store: &Store, user_id: i32) -> (r: Result<NoteLabel, ApiError>)
        requires
            store@.wf(),
        ensures
            outcome(r) == store@.notes_labels_last(user_id),
    {
        NoteLabel::get(store, store.next_note_label - 1, user_id)
    }

    /// Attaches the label `label_id` to the note `note_id` for `user_id`.
    pub fn new(store: &mut Store, note_id: i32, label_id: i32, user_id: i32) -> (r: Result<
        NoteLabel,
        ApiError,
    >)
        requires
            old(store)@.wf(),
        ensures
            final(store)@.wf(),
            (final(store)@, outcome(r)) == old(store)@.notes_labels_new(note_id, label_id, user_id),
    {
        if find_note(&store.notes, note_id, user_id).is_none() {
            return Err(ApiError::NotFound);
        }
        if find_label(&store.labels, label_id, user_id).is_none() {
            return Err(ApiError::NotFound);
        }
        if find_note_label(&store.notes_labels, note_id, label_id).is_some() {
            return Err(ApiError::Conflict);
        }
        if store.next_note_label == i32::MAX {
            return Err(ApiError::Conflict);
        }
        let edge = NoteLabel { id: store.next_note_label, note_id: note_id, label_id: label_id };
        store.notes_labels.push(edge);
        store.next_note_label = edge.id + 1;
        proof {
            let spec_db = old(store)@.notes_labels_new(note_id, label_id, user_id).0;
            assert(store@.notes_labels =~= spec_db.notes_labels);
            assert(store@ == spec_db);
            lemma_notes_labels_new_keeps_wf(old(store)@, note_id, label_id, user_id);
        }
        Ok(edge)
    }

    /// Detaches the label `label_id` from the note `note_id` for `user_id`.
    pub fn delete(store: &mut Store, note_id: i32, label_id: i32, user_id: i32) -> (r: Result<
        NoteLabel,
        ApiError,
    >)
        requires
            old(store)@.wf(),
        ensures
            final(store)@.wf(),
            (final(store)@, outcome(r)) == old(store)@.notes_labels_delete(
                note_id,
                label_id,
                user_id,
            ),
    {
        if find_note(&store.notes, note_id, user_id).is_none() {
            return Err(ApiError::NotFound);
        }
        match find_note_label(&store.notes_labels, note_id, label_id) {
            Some(i) => {
                proof {
                    lemma_note_label_index(store@, i as int, note_id, label_id);
                    lemma_notes_labels_delete_keeps_wf(store@, note_id, label_id, user_id);
                }
                let edge = store.notes_labels.remove(i);
                Ok(edge)
            },
            None => Err(ApiError::NotFound),
        }
    }

    /// Points the edge `edge.id` at the note and the label that `edge`
    /// names, for `user_id`.
    pub fn update(store: &mut Store, edge: NoteLabel, user_id: i32) -> (r: Result<
        NoteLabel,
        ApiError,
    >)
        requires
            old(store)@.wf(),
        ensures
            final(store)@.wf(),
            (final(store)@, outcome(r)) == old(store)@.notes_labels_update(edge, user_id),
    {
        let at = match find_note_label_id(&store.notes_labels, edge.id) {
            Some(i) => i,
            None => {
                return Err(ApiError::NotFound);
            },
        };
        proof {
            lemma_note_label_id_index(store@, at as int, edge.id);
        }
        if find_note(&store.notes, store.notes_labels[at].note_id, user_id).is_none() {
            return Err(ApiError::NotFound);
        }
        if find_note(&store.notes, edge.note_id, user_id).is_none() {
            return Err(ApiError::NotFound);
        }
        if find_label(&store.labels, edge.label_id, user_id).is_none() {
            return Err(ApiError::NotFound);
        }
        match find_note_label(&store.notes_labels, edge.note_id, edge.label_id) {
            Some(other) => {
                proof {
                    lemma_note_label_index(store@, other as int, edge.note_id, edge.label_id);
                }
                if other != at {
                    return Err(ApiError::Conflict);
                }
            },
            None => {},
        }
        proof {
            assert forall|i: int|
                note_label_at(store@.notes_labels, i, edge.note_id, edge.label_id) implies i
                == at by {
                lemma_note_label_index(store@, i, edge.note_id, edge.label_id);
            }
            lemma_notes_labels_update_keeps_wf(store@, edge, user_id);
        }
        store.notes_labels.set(at, edge);
        Ok(edge)
    }
}

} // verus!
