//! The edges between notes and categories: attaching a category to a note,
//! detaching it, and listing the edges.

use vstd::prelude::*;
use crate::error::ApiError;
use crate::model::category::{
    find_category, category_at, category_exists, category_id_at, category_known, lemma_category_known_push,
    lemma_category_known_remove, lemma_category_known_update, CategoryWU, CategoryWUView,
};
use crate::model::note::{
    find_note, lemma_note_known_push, lemma_note_known_remove, lemma_note_known_update, note_at,
    note_exists, note_id_at, note_known, NoteWU, NoteWUView,
};
use crate::model::store::{outcome, views, Db, Store};

verus! {

/// One edge: the category `category_id` is attached to the note `note_id`.
#[derive(Clone, Copy, Debug, PartialEq, Eq, Structural)]
pub struct NoteCategory {
    pub id: i32,
    pub note_id: i32,
    pub category_id: i32,
}

impl View for NoteCategory {
    type V = NoteCategory;

    open spec fn view(&self) -> NoteCategory {
        *self
    }
}

/// The invariant of the edge table: ids are positive, unique and below the
/// id handed out next, and no (note, category) pair occurs twice.
pub open spec fn notes_categories_wf(rows: Seq<NoteCategory>, next: i32) -> bool {
    &&& 1 <= next
    &&& forall|i: int| 0 <= i < rows.len() ==> 1 <= (#[trigger] rows[i]).id < next
    &&& forall|i: int, j: int|
        0 <= i < j < rows.len() ==> (#[trigger] rows[i]).id != (#[trigger] rows[j]).id
    &&& forall|i: int, j: int|
        0 <= i < j < rows.len() ==> !((#[trigger] rows[i]).note_id == (#[trigger] rows[j]).note_id
            && rows[i].category_id == rows[j].category_id)
}

/// Every edge joins a note and a category that exist.
pub open spec fn notes_categories_refer(
    edges: Seq<NoteCategory>,
    notes: Seq<NoteWUView>,
    categories: Seq<CategoryWUView>,
) -> bool {
    forall|i: int|
        0 <= i < edges.len() ==> note_known(notes, (#[trigger] edges[i]).note_id) && category_known(
            categories,
            edges[i].category_id,
        )
}

/// Whether row `i` is the edge between `note_id` and `category_id`.
pub open spec fn note_category_at(rows: Seq<NoteCategory>, i: int, note_id: i32, category_id: i32) -> bool {
    0 <= i < rows.len() && rows[i].note_id == note_id && rows[i].category_id == category_id
}

/// Whether row `i` is the edge with the id `id`.
pub open spec fn note_category_id_at(rows: Seq<NoteCategory>, i: int, id: i32) -> bool {
    0 <= i < rows.len() && rows[i].id == id
}

/// The test that keeps the edges of every note but `note_id`.
pub open spec fn not_of_note(note_id: i32) -> spec_fn(NoteCategory) -> bool {
    |e: NoteCategory| e.note_id != note_id
}

/// The test that keeps the edges of every category but `category_id`.
pub open spec fn not_of_category(category_id: i32) -> spec_fn(NoteCategory) -> bool {
    |e: NoteCategory| e.category_id != category_id
}

/// The test that keeps the edges whose note belongs to `user_id`.
pub open spec fn edge_of(db: Db, user_id: i32) -> spec_fn(NoteCategory) -> bool {
    |e: NoteCategory| db.has_note(e.note_id, user_id)
}

impl Db {
    /// Whether the category `category_id` is attached to the note `note_id`.
    pub open spec fn has_note_category(self, note_id: i32, category_id: i32) -> bool {
        exists|i: int| note_category_at(self.notes_categories, i, note_id, category_id)
    }

    /// The row of the edge between `note_id` and `category_id`, where there is
    /// one.
    pub open spec fn note_category_index(self, note_id: i32, category_id: i32) -> int {
        choose|i: int| note_category_at(self.notes_categories, i, note_id, category_id)
    }

    /// Whether there is an edge with the id `id`.
    pub open spec fn has_note_category_id(self, id: i32) -> bool {
        exists|i: int| note_category_id_at(self.notes_categories, i, id)
    }

    /// The row of the edge with the id `id`, where there is one.
    pub open spec fn note_category_id_index(self, id: i32) -> int {
        choose|i: int| note_category_id_at(self.notes_categories, i, id)
    }

    /// The edges of the notes of `user_id`, oldest first.
    pub open spec fn notes_categories_all(self, user_id: i32) -> Seq<NoteCategory> {
        self.notes_categories.filter(edge_of(self, user_id))
    }

    /// The edge with the id `id`, where its note belongs to `user_id`.
    pub open spec fn notes_categories_get(self, id: i32, user_id: i32) -> Result<NoteCategory, ApiError> {
        if self.has_note_category_id(id) && self.has_note(
            self.notes_categories[self.note_category_id_index(id)].note_id,
            user_id,
        ) {
            Ok(self.notes_categories[self.note_category_id_index(id)])
        } else {
            Err(ApiError::NotFound)
        }
    }

    /// The edge that was inserted last, where it is still there and its note
    /// belongs to `user_id`.
    pub open spec fn notes_categories_last(self, user_id: i32) -> Result<NoteCategory, ApiError> {
        self.notes_categories_get((self.next_note_category - 1) as i32, user_id)
    }

    /// Attaching the category `category_id` to the note `note_id` for `user_id`:
    /// the store afterwards and the answer. Both the note and the category
    /// must belong to `user_id`, else nothing is found; a pair that is
    /// attached already is a conflict, and so is an id that cannot be
    /// handed out.
    pub open spec fn notes_categories_new(self, note_id: i32, category_id: i32, user_id: i32) -> (
        Db,
        Result<NoteCategory, ApiError>,
    ) {
        if !self.has_note(note_id, user_id) || !self.has_category(category_id, user_id) {
            (self, Err(ApiError::NotFound))
        } else if self.has_note_category(note_id, category_id) || self.next_note_category == i32::MAX {
            (self, Err(ApiError::Conflict))
        } else {
            let edge = NoteCategory { id: self.next_note_category, note_id: note_id, category_id: category_id };
            (
                Db {
                    notes_categories: self.notes_categories.push(edge),
                    next_note_category: (self.next_note_category + 1) as i32,
                    ..self
                },
                Ok(edge),
            )
        }
    }

    /// Detaching the category `category_id` from the note `note_id` for
    /// `user_id`: the store afterwards and the answer, which is the edge as
    /// it was. Nothing is found unless the note belongs to `user_id` and the
    /// category is attached to it.
    pub open spec fn notes_categories_delete(self, note_id: i32, category_id: i32, user_id: i32) -> (
        Db,
        Result<NoteCategory, ApiError>,
    ) {
        if self.has_note(note_id, user_id) && self.has_note_category(note_id, category_id) {
            let i = self.note_category_index(note_id, category_id);
            (Db { notes_categories: self.notes_categories.remove(i), ..self }, Ok(self.notes_categories[i]))
        } else {
            (self, Err(ApiError::NotFound))
        }
    }

    /// Pointing the edge `edge.id` at the note and the category that `edge`
    /// names, for `user_id`: the store afterwards and the answer. Nothing is
    /// found unless the edge exists and its note, the new note and the new
    /// category all belong to `user_id`; a pair that another edge holds is a
    /// conflict.
    pub open spec fn notes_categories_update(self, edge: NoteCategory, user_id: i32) -> (
        Db,
        Result<NoteCategory, ApiError>,
    ) {
        if !self.has_note_category_id(edge.id) || !self.has_note(
            self.notes_categories[self.note_category_id_index(edge.id)].note_id,
            user_id,
        ) || !self.has_note(edge.note_id, user_id) || !self.has_category(edge.category_id, user_id) {
            (self, Err(ApiError::NotFound))
        } else if self.has_note_category(edge.note_id, edge.category_id) && self.note_category_index(
            edge.note_id,
            edge.category_id,
        ) != self.note_category_id_index(edge.id) {
            (self, Err(ApiError::Conflict))
        } else {
            (
                Db {
                    notes_categories: self.notes_categories.update(self.note_category_id_index(edge.id), edge),
                    ..self
                },
                Ok(edge),
            )
        }
    }
}

/// A pair has at most one edge.
pub proof fn lemma_note_category_index(db: Db, i: int, note_id: i32, category_id: i32)
    requires
        notes_categories_wf(db.notes_categories, db.next_note_category),
        note_category_at(db.notes_categories, i, note_id, category_id),
    ensures
        db.has_note_category(note_id, category_id),
        db.note_category_index(note_id, category_id) == i,
{
    let k = db.note_category_index(note_id, category_id);
    assert(note_category_at(db.notes_categories, k, note_id, category_id));
    if k < i {
        assert(!(db.notes_categories[k].note_id == db.notes_categories[i].note_id
            && db.notes_categories[k].category_id == db.notes_categories[i].category_id));
    } else if i < k {
        assert(!(db.notes_categories[i].note_id == db.notes_categories[k].note_id
            && db.notes_categories[i].category_id == db.notes_categories[k].category_id));
    }
}

/// An id has at most one edge.
pub proof fn lemma_note_category_id_index(db: Db, i: int, id: i32)
    requires
        notes_categories_wf(db.notes_categories, db.next_note_category),
        note_category_id_at(db.notes_categories, i, id),
    ensures
        db.has_note_category_id(id),
        db.note_category_id_index(id) == i,
{
    let k = db.note_category_id_index(id);
    assert(note_category_id_at(db.notes_categories, k, id));
    if k < i {
        assert(db.notes_categories[k].id != db.notes_categories[i].id);
    } else if i < k {
        assert(db.notes_categories[i].id != db.notes_categories[k].id);
    }
}

/// Dropping edges keeps the table's invariant, and adds no edge.
pub proof fn lemma_filter_keeps_wf(rows: Seq<NoteCategory>, next: i32, keep: spec_fn(NoteCategory) -> bool)
    requires
        notes_categories_wf(rows, next),
    ensures
        notes_categories_wf(rows.filter(keep), next),
        forall|k: int|
            0 <= k < rows.filter(keep).len() ==> rows.contains(#[trigger] rows.filter(keep)[k]),
    decreases rows.len(),
{
    reveal(Seq::filter);
    if rows.len() > 0 {
        let init = rows.drop_last();
        let last = rows.last();
        assert forall|i: int| 0 <= i < init.len() implies init[i] == rows[i] by {}
        assert(notes_categories_wf(init, next));
        lemma_filter_keeps_wf(init, next, keep);
        let kept = init.filter(keep);
        assert forall|k: int| 0 <= k < kept.len() implies rows.contains(#[trigger] kept[k])
            && kept[k].id != last.id && !(kept[k].note_id == last.note_id && kept[k].category_id
            == last.category_id) by {
            assert(init.contains(kept[k]));
            let m = choose|m: int| 0 <= m < init.len() && init[m] == kept[k];
            assert(rows[m] == kept[k]);
            assert(rows[m].id != rows[rows.len() - 1].id);
        }
        if keep(last) {
            let all = kept.push(last);
            assert(rows.filter(keep) == all);
            assert(rows.contains(last)) by {
                assert(rows[rows.len() - 1] == last);
            }
            assert forall|k: int| 0 <= k < all.len() implies rows.contains(#[trigger] all[k]) by {
                if k < kept.len() {
                    assert(all[k] == kept[k]);
                }
            }
            assert forall|i: int, j: int| 0 <= i < j < all.len() implies (#[trigger] all[i]).id != (
            #[trigger] all[j]).id && !(all[i].note_id == all[j].note_id && all[i].category_id
                == all[j].category_id) by {
                assert(all[i] == kept[i]);
                if j < kept.len() {
                    assert(all[j] == kept[j]);
                }
            }
            assert forall|i: int| 0 <= i < all.len() implies 1 <= (#[trigger] all[i]).id < next by {
                if i < kept.len() {
                    assert(all[i] == kept[i]);
                } else {
                    assert(all[i] == rows[rows.len() - 1]);
                }
            }
        } else {
            assert(rows.filter(keep) == kept);
        }
    }
}

/// A new edge with the next id and a pair that no edge holds keeps the
/// table's invariant.
pub proof fn lemma_push_keeps_wf(rows: Seq<NoteCategory>, next: i32, edge: NoteCategory)
    requires
        notes_categories_wf(rows, next),
        next < i32::MAX,
        edge.id == next,
        forall|i: int| !note_category_at(rows, i, edge.note_id, edge.category_id),
    ensures
        notes_categories_wf(rows.push(edge), (next + 1) as i32),
{
    let all = rows.push(edge);
    assert forall|i: int, j: int| 0 <= i < j < all.len() implies (#[trigger] all[i]).id != (
    #[trigger] all[j]).id && !(all[i].note_id == all[j].note_id && all[i].category_id
        == all[j].category_id) by {
        assert(all[i] == rows[i]);
        if j < rows.len() {
            assert(all[j] == rows[j]);
        } else {
            assert(!note_category_at(rows, i, edge.note_id, edge.category_id));
        }
    }
    assert forall|i: int| 0 <= i < all.len() implies 1 <= (#[trigger] all[i]).id < next + 1 by {
        if i < rows.len() {
            assert(all[i] == rows[i]);
        }
    }
}

/// Pointing an edge at a pair that no other edge holds keeps the table's
/// invariant.
pub proof fn lemma_update_keeps_wf(rows: Seq<NoteCategory>, next: i32, at: int, edge: NoteCategory)
    requires
        notes_categories_wf(rows, next),
        0 <= at < rows.len(),
        rows[at].id == edge.id,
        forall|i: int| note_category_at(rows, i, edge.note_id, edge.category_id) ==> i == at,
    ensures
        notes_categories_wf(rows.update(at, edge), next),
{
    let all = rows.update(at, edge);
    assert forall|i: int, j: int| 0 <= i < j < all.len() implies (#[trigger] all[i]).id != (
    #[trigger] all[j]).id && !(all[i].note_id == all[j].note_id && all[i].category_id
        == all[j].category_id) by {
        assert(rows[i].id != rows[j].id);
        if i == at {
            assert(note_category_at(rows, j, edge.note_id, edge.category_id) ==> j == at);
        } else if j == at {
            assert(note_category_at(rows, i, edge.note_id, edge.category_id) ==> i == at);
        } else {
            assert(all[i] == rows[i] && all[j] == rows[j]);
        }
    }
    assert forall|i: int| 0 <= i < all.len() implies 1 <= (#[trigger] all[i]).id < next by {
        assert(1 <= rows[i].id < next);
    }
}

/// Taking a row out keeps the table's invariant.
pub proof fn lemma_remove_keeps_wf(rows: Seq<NoteCategory>, next: i32, at: int)
    requires
        notes_categories_wf(rows, next),
        0 <= at < rows.len(),
    ensures
        notes_categories_wf(rows.remove(at), next),
{
    let rest = rows.remove(at);
    assert forall|i: int| 0 <= i < rest.len() implies 1 <= (#[trigger] rest[i]).id < next by {
        if i < at {
            assert(rest[i] == rows[i]);
        } else {
            assert(rest[i] == rows[i + 1]);
        }
    }
    assert forall|i: int, j: int| 0 <= i < j < rest.len() implies (#[trigger] rest[i]).id != (
    #[trigger] rest[j]).id && !(rest[i].note_id == rest[j].note_id && rest[i].category_id
        == rest[j].category_id) by {
        let a = if i < at { i } else { i + 1 };
        let b = if j < at { j } else { j + 1 };
        assert(rest[i] == rows[a]);
        assert(rest[j] == rows[b]);
        assert(rows[a].id != rows[b].id);
    }
}

/// The edges keep their notes when a note is added.
pub proof fn lemma_refer_after_note_push(
    edges: Seq<NoteCategory>,
    notes: Seq<NoteWUView>,
    categories: Seq<CategoryWUView>,
    row: NoteWUView,
)
    requires
        notes_categories_refer(edges, notes, categories),
    ensures
        notes_categories_refer(edges, notes.push(row), categories),
{
    assert forall|i: int| 0 <= i < edges.len() implies note_known(
        notes.push(row),
        (#[trigger] edges[i]).note_id,
    ) && category_known(categories, edges[i].category_id) by {
        lemma_note_known_push(notes, row, edges[i].note_id);
    }
}

/// The edges keep their notes when a note is changed.
pub proof fn lemma_refer_after_note_update(
    edges: Seq<NoteCategory>,
    notes: Seq<NoteWUView>,
    categories: Seq<CategoryWUView>,
    at: int,
    row: NoteWUView,
)
    requires
        notes_categories_refer(edges, notes, categories),
        0 <= at < notes.len(),
        row.id == notes[at].id,
    ensures
        notes_categories_refer(edges, notes.update(at, row), categories),
{
    assert forall|i: int| 0 <= i < edges.len() implies note_known(
        notes.update(at, row),
        (#[trigger] edges[i]).note_id,
    ) && category_known(categories, edges[i].category_id) by {
        lemma_note_known_update(notes, at, row, edges[i].note_id);
    }
}

/// The edges that are left when a note goes, with its edges, keep their
/// notes.
pub proof fn lemma_refer_after_note_remove(
    edges: Seq<NoteCategory>,
    notes: Seq<NoteWUView>,
    categories: Seq<CategoryWUView>,
    at: int,
)
    requires
        notes_categories_refer(edges, notes, categories),
        0 <= at < notes.len(),
    ensures
        notes_categories_refer(edges.filter(not_of_note(notes[at].id)), notes.remove(at), categories),
{
    let keep = not_of_note(notes[at].id);
    let kept = edges.filter(keep);
    assert forall|k: int| 0 <= k < kept.len() implies note_known(
        notes.remove(at),
        (#[trigger] kept[k]).note_id,
    ) && category_known(categories, kept[k].category_id) by {
        edges.lemma_filter_pred(keep, k);
        assert(kept.contains(kept[k]));
        edges.lemma_filter_contains_rev(keep, kept[k]);
        let m = choose|m: int| 0 <= m < edges.len() && edges[m] == kept[k];
        assert(note_known(notes, edges[m].note_id));
        lemma_note_known_remove(notes, at, kept[k].note_id);
    }
}

/// The edges keep their categories when a category is added.
pub proof fn lemma_refer_after_category_push(
    edges: Seq<NoteCategory>,
    notes: Seq<NoteWUView>,
    categories: Seq<CategoryWUView>,
    row: CategoryWUView,
)
    requires
        notes_categories_refer(edges, notes, categories),
    ensures
        notes_categories_refer(edges, notes, categories.push(row)),
{
    assert forall|i: int| 0 <= i < edges.len() implies note_known(
        notes,
        (#[trigger] edges[i]).note_id,
    ) && category_known(categories.push(row), edges[i].category_id) by {
        lemma_category_known_push(categories, row, edges[i].category_id);
    }
}

/// The edges keep their categories when a category is changed.
pub proof fn lemma_refer_after_category_update(
    edges: Seq<NoteCategory>,
    notes: Seq<NoteWUView>,
    categories: Seq<CategoryWUView>,
    at: int,
    row: CategoryWUView,
)
    requires
        notes_categories_refer(edges, notes, categories),
        0 <= at < categories.len(),
        row.id == categories[at].id,
    ensures
        notes_categories_refer(edges, notes, categories.update(at, row)),
{
    assert forall|i: int| 0 <= i < edges.len() implies note_known(
        notes,
        (#[trigger] edges[i]).note_id,
    ) && category_known(categories.update(at, row), edges[i].category_id) by {
        lemma_category_known_update(categories, at, row, edges[i].category_id);
    }
}

/// The edges that are left when a category goes, with its edges, keep their
/// categories.
pub proof fn lemma_refer_after_category_remove(
    edges: Seq<NoteCategory>,
    notes: Seq<NoteWUView>,
    categories: Seq<CategoryWUView>,
    at: int,
)
    requires
        notes_categories_refer(edges, notes, categories),
        0 <= at < categories.len(),
    ensures
        notes_categories_refer(edges.filter(not_of_category(categories[at].id)), notes, categories.remove(at)),
{
    let keep = not_of_category(categories[at].id);
    let kept = edges.filter(keep);
    assert forall|k: int| 0 <= k < kept.len() implies note_known(
        notes,
        (#[trigger] kept[k]).note_id,
    ) && category_known(categories.remove(at), kept[k].category_id) by {
        edges.lemma_filter_pred(keep, k);
        assert(kept.contains(kept[k]));
        edges.lemma_filter_contains_rev(keep, kept[k]);
        let m = choose|m: int| 0 <= m < edges.len() && edges[m] == kept[k];
        assert(category_known(categories, edges[m].category_id));
        lemma_category_known_remove(categories, at, kept[k].category_id);
    }
}

/// Attaching keeps the store's invariant.
pub proof fn lemma_notes_categories_new_keeps_wf(db: Db, note_id: i32, category_id: i32, user_id: i32)
    requires
        db.wf(),
    ensures
        db.notes_categories_new(note_id, category_id, user_id).0.wf(),
{
    let (next, res) = db.notes_categories_new(note_id, category_id, user_id);
    if res is Ok {
        let edge = res->Ok_0;
        lemma_push_keeps_wf(db.notes_categories, db.next_note_category, edge);
        let n = db.note_index(note_id, user_id);
        assert(note_at(db.notes, n, note_id, user_id));
        assert(note_id_at(db.notes, n, note_id));
        let l = db.category_index(category_id, user_id);
        assert(category_at(db.categories, l, category_id, user_id));
        assert(category_id_at(db.categories, l, category_id));
        let all = db.notes_categories.push(edge);
        assert forall|i: int| 0 <= i < all.len() implies note_known(
            db.notes,
            (#[trigger] all[i]).note_id,
        ) && category_known(db.categories, all[i].category_id) by {
            if i < db.notes_categories.len() {
                assert(all[i] == db.notes_categories[i]);
            }
        }
    }
}

/// Detaching keeps the store's invariant.
pub proof fn lemma_notes_categories_delete_keeps_wf(db: Db, note_id: i32, category_id: i32, user_id: i32)
    requires
        db.wf(),
    ensures
        db.notes_categories_delete(note_id, category_id, user_id).0.wf(),
{
    let (next, res) = db.notes_categories_delete(note_id, category_id, user_id);
    if res is Ok {
        let at = db.note_category_index(note_id, category_id);
        assert(note_category_at(db.notes_categories, at, note_id, category_id));
        lemma_remove_keeps_wf(db.notes_categories, db.next_note_category, at);
        let rest = db.notes_categories.remove(at);
        assert forall|i: int| 0 <= i < rest.len() implies note_known(
            db.notes,
            (#[trigger] rest[i]).note_id,
        ) && category_known(db.categories, rest[i].category_id) by {
            if i < at {
                assert(rest[i] == db.notes_categories[i]);
            } else {
                assert(rest[i] == db.notes_categories[i + 1]);
            }
        }
    }
}

/// Pointing an edge elsewhere keeps the store's invariant.
pub proof fn lemma_notes_categories_update_keeps_wf(db: Db, edge: NoteCategory, user_id: i32)
    requires
        db.wf(),
    ensures
        db.notes_categories_update(edge, user_id).0.wf(),
{
    let (next, res) = db.notes_categories_update(edge, user_id);
    if res is Ok {
        let at = db.note_category_id_index(edge.id);
        assert(note_category_id_at(db.notes_categories, at, edge.id));
        assert forall|i: int|
            note_category_at(db.notes_categories, i, edge.note_id, edge.category_id) implies i == at by {
            lemma_note_category_index(db, i, edge.note_id, edge.category_id);
        }
        lemma_update_keeps_wf(db.notes_categories, db.next_note_category, at, edge);
        let n = db.note_index(edge.note_id, user_id);
        assert(note_at(db.notes, n, edge.note_id, user_id));
        assert(note_id_at(db.notes, n, edge.note_id));
        let l = db.category_index(edge.category_id, user_id);
        assert(category_at(db.categories, l, edge.category_id, user_id));
        assert(category_id_at(db.categories, l, edge.category_id));
        let all = db.notes_categories.update(at, edge);
        assert forall|i: int| 0 <= i < all.len() implies note_known(
            db.notes,
            (#[trigger] all[i]).note_id,
        ) && category_known(db.categories, all[i].category_id) by {
            if i != at {
                assert(all[i] == db.notes_categories[i]);
            }
        }
    }
}

/// Looks for the row of the edge between `note_id` and `category_id`.
pub(crate) fn find_note_category(rows: &Vec<NoteCategory>, note_id: i32, category_id: i32) -> (r: Option<
    usize,
>)
    ensures
        match r {
            Some(i) => note_category_at(rows@, i as int, note_id, category_id),
            None => forall|i: int| !note_category_at(rows@, i, note_id, category_id),
        },
{
    let mut i: usize = 0;
    while i < rows.len()
        invariant
            i <= rows.len(),
            forall|k: int| 0 <= k < i ==> !note_category_at(rows@, k, note_id, category_id),
        decreases rows.len() - i,
    {
        if rows[i].note_id == note_id && rows[i].category_id == category_id {
            return Some(i);
        }
        i = i + 1;
    }
    None
}

/// Looks for the row of the edge with the id `id`.
pub(crate) fn find_note_category_id(rows: &Vec<NoteCategory>, id: i32) -> (r: Option<usize>)
    ensures
        match r {
            Some(i) => note_category_id_at(rows@, i as int, id),
            None => forall|i: int| !note_category_id_at(rows@, i, id),
        },
{
    let mut i: usize = 0;
    while i < rows.len()
        invariant
            i <= rows.len(),
            forall|k: int| 0 <= k < i ==> !note_category_id_at(rows@, k, id),
        decreases rows.len() - i,
    {
        if rows[i].id == id {
            return Some(i);
        }
        i = i + 1;
    }
    None
}

/// The edges of every note but `note_id`, in their order.
pub(crate) fn without_note(rows: &Vec<NoteCategory>, note_id: i32) -> (r: Vec<NoteCategory>)
    ensures
        r@ == rows@.filter(not_of_note(note_id)),
{
    let mut out: Vec<NoteCategory> = Vec::new();
    let mut i: usize = 0;
    proof {
        assert(rows@.take(0) =~= Seq::empty());
        assert(rows@.take(0).filter(not_of_note(note_id)) =~= Seq::empty()) by {
            reveal(Seq::filter);
        }
    }
    while i < rows.len()
        invariant
            i <= rows.len(),
            out@ == rows@.take(i as int).filter(not_of_note(note_id)),
        decreases rows.len() - i,
    {
        proof {
            rows@.lemma_take_succ_push(i as int);
            rows@.take(i as int).lemma_filter_push(rows@[i as int], not_of_note(note_id));
        }
        if rows[i].note_id != note_id {
            out.push(rows[i]);
        }
        i = i + 1;
    }
    proof {
        assert(rows@.take(i as int) =~= rows@);
    }
    out
}

/// The edges of every category but `category_id`, in their order.
pub(crate) fn without_category(rows: &Vec<NoteCategory>, category_id: i32) -> (r: Vec<NoteCategory>)
    ensures
        r@ == rows@.filter(not_of_category(category_id)),
{
    let mut out: Vec<NoteCategory> = Vec::new();
    let mut i: usize = 0;
    proof {
        assert(rows@.take(0) =~= Seq::empty());
        assert(rows@.take(0).filter(not_of_category(category_id)) =~= Seq::empty()) by {
            reveal(Seq::filter);
        }
    }
    while i < rows.len()
        invariant
            i <= rows.len(),
            out@ == rows@.take(i as int).filter(not_of_category(category_id)),
        decreases rows.len() - i,
    {
        proof {
            rows@.lemma_take_succ_push(i as int);
            rows@.take(i as int).lemma_filter_push(rows@[i as int], not_of_category(category_id));
        }
        if rows[i].category_id != category_id {
            out.push(rows[i]);
        }
        i = i + 1;
    }
    proof {
        assert(rows@.take(i as int) =~= rows@);
    }
    out
}

/// Checks the table's invariant.
pub fn notes_categories_ok(rows: &Vec<NoteCategory>, next: i32) -> (r: bool)
    ensures
        r == notes_categories_wf(rows@, next),
{
    if next < 1 {
        return false;
    }
    let mut i: usize = 0;
    while i < rows.len()
        invariant
            i <= rows.len(),
            1 <= next,
            forall|a: int| 0 <= a < i ==> 1 <= (#[trigger] rows@[a]).id < next,
            forall|a: int, b: int|
                0 <= a < b < i ==> (#[trigger] rows@[a]).id != (#[trigger] rows@[b]).id,
            forall|a: int, b: int|
                0 <= a < b < i ==> !((#[trigger] rows@[a]).note_id == (#[trigger] rows@[b]).note_id
                    && rows@[a].category_id == rows@[b].category_id),
        decreases rows.len() - i,
    {
        if rows[i].id < 1 || rows[i].id >= next {
            assert(!(1 <= rows@[i as int].id < next));
            return false;
        }
        let mut j: usize = 0;
        while j < i
            invariant
                j <= i,
                i < rows.len(),
                forall|a: int| 0 <= a < j ==> (#[trigger] rows@[a]).id != rows@[i as int].id,
                forall|a: int|
                    0 <= a < j ==> !((#[trigger] rows@[a]).note_id == rows@[i as int].note_id
                        && rows@[a].category_id == rows@[i as int].category_id),
            decreases i - j,
        {
            if rows[j].id == rows[i].id || (rows[j].note_id == rows[i].note_id && rows[j].category_id
                == rows[i].category_id) {
                assert(rows@[j as int].id == rows@[i as int].id || (rows@[j as int].note_id
                    == rows@[i as int].note_id && rows@[j as int].category_id == rows@[i as int].category_id));
                return false;
            }
            j = j + 1;
        }
        i = i + 1;
    }
    true
}

/// Checks that every edge joins a note and a category that exist.
pub fn notes_categories_refer_ok(edges: &Vec<NoteCategory>, notes: &Vec<NoteWU>, categories: &Vec<CategoryWU>) -> (r:
    bool)
    ensures
        r == notes_categories_refer(edges@, views(notes@), views(categories@)),
{
    let mut i: usize = 0;
    while i < edges.len()
        invariant
            i <= edges.len(),
            forall|k: int|
                0 <= k < i ==> note_known(views(notes@), (#[trigger] edges@[k]).note_id)
                    && category_known(views(categories@), edges@[k].category_id),
        decreases edges.len() - i,
    {
        if !note_exists(notes, edges[i].note_id) || !category_exists(categories, edges[i].category_id) {
            assert(!(note_known(views(notes@), edges@[i as int].note_id) && category_known(
                views(categories@),
                edges@[i as int].category_id,
            )));
            return false;
        }
        i = i + 1;
    }
    true
}

impl NoteCategory {
    /// Every edge of the notes of `user_id`, oldest first.
    pub fn all(store: &Store, user_id: i32) -> (r: Vec<NoteCategory>)
        ensures
            r@ == store@.notes_categories_all(user_id),
    {
        let mut out: Vec<NoteCategory> = Vec::new();
        let mut i: usize = 0;
        let ghost rows = store@.notes_categories;
        let ghost keep = edge_of(store@, user_id);
        proof {
            assert(rows.take(0) =~= Seq::empty());
            assert(rows.take(0).filter(keep) =~= Seq::empty()) by {
                reveal(Seq::filter);
            }
        }
        while i < store.notes_categories.len()
            invariant
                i <= store.notes_categories.len(),
                rows == store@.notes_categories,
                keep == edge_of(store@, user_id),
                out@ == rows.take(i as int).filter(keep),
            decreases store.notes_categories.len() - i,
        {
            proof {
                rows.lemma_take_succ_push(i as int);
                rows.take(i as int).lemma_filter_push(rows[i as int], keep);
            }
            let edge = store.notes_categories[i];
            let owner_row = find_note(&store.notes, edge.note_id, user_id);
            proof {
                match owner_row {
                    Some(k) => {
                        assert(note_at(store@.notes, k as int, edge.note_id, user_id));
                    },
                    None => {},
                }
                assert(keep(edge) == store@.has_note(edge.note_id, user_id));
            }
            if owner_row.is_some() {
                out.push(edge);
            }
            i = i + 1;
        }
        proof {
            assert(rows.take(i as int) =~= rows);
        }
        out
    }

    /// The edge with the id `id`, where its note belongs to `user_id`.
    pub fn get(store: &Store, id: i32, user_id: i32) -> (r: Result<NoteCategory, ApiError>)
        requires
            store@.wf(),
        ensures
            outcome(r) == store@.notes_categories_get(id, user_id),
    {
        match find_note_category_id(&store.notes_categories, id) {
            Some(i) => {
                proof {
                    lemma_note_category_id_index(store@, i as int, id);
                }
                let edge = store.notes_categories[i];
                if find_note(&store.notes, edge.note_id, user_id).is_some() {
                    Ok(edge)
                } else {
                    Err(ApiError::NotFound)
                }
            },
            None => Err(ApiError::NotFound),
        }
    }

    /// The edge that was inserted last, where it is still there and its note
    /// belongs to `user_id`.
    pub fn get_last_inserted(store: &Store, user_id: i32) -> (r: Result<NoteCategory, ApiError>)
        requires
            store@.wf(),
        ensures
            outcome(r) == store@.notes_categories_last(user_id),
    {
        NoteCategory::get(store, store.next_note_category - 1, user_id)
    }

    /// Attaches the category `category_id` to the note `note_id` for `user_id`.
    pub fn new(store: &mut Store, note_id: i32, category_id: i32, user_id: i32) -> (r: Result<
        NoteCategory,
        ApiError,
    >)
        requires
            old(store)@.wf(),
        ensures
            final(store)@.wf(),
            (final(store)@, outcome(r)) == old(store)@.notes_categories_new(note_id, category_id, user_id),
    {
        if find_note(&store.notes, note_id, user_id).is_none() {
            return Err(ApiError::NotFound);
        }
        if find_category(&store.categories, category_id, user_id).is_none() {
            return Err(ApiError::NotFound);
        }
        if find_note_category(&store.notes_categories, note_id, category_id).is_some() {
            return Err(ApiError::Conflict);
        }
        if store.next_note_category == i32::MAX {
            return Err(ApiError::Conflict);
        }
        let edge = NoteCategory { id: store.next_note_category, note_id: note_id, category_id: category_id };
        store.notes_categories.push(edge);
        store.next_note_category = edge.id + 1;
        proof {
            let spec_db = old(store)@.notes_categories_new(note_id, category_id, user_id).0;
            assert(store@.notes_categories =~= spec_db.notes_categories);
            assert(store@ == spec_db);
            lemma_notes_categories_new_keeps_wf(old(store)@, note_id, category_id, user_id);
        }
        Ok(edge)
    }

    /// Detaches the category `category_id` from the note `note_id` for `user_id`.
    pub fn delete(store: &mut Store, note_id: i32, category_id: i32, user_id: i32) -> (r: Result<
        NoteCategory,
        ApiError,
    >)
        requires
            old(store)@.wf(),
        ensures
            final(store)@.wf(),
            (final(store)@, outcome(r)) == old(store)@.notes_categories_delete(
                note_id,
                category_id,
                user_id,
            ),
    {
        if find_note(&store.notes, note_id, user_id).is_none() {
            return Err(ApiError::NotFound);
        }
        match find_note_category(&store.notes_categories, note_id, category_id) {
            Some(i) => {
                proof {
                    lemma_note_category_index(store@, i as int, note_id, category_id);
                    lemma_notes_categories_delete_keeps_wf(store@, note_id, category_id, user_id);
                }
                let edge = store.notes_categories.remove(i);
                Ok(edge)
            },
            None => Err(ApiError::NotFound),
        }
    }

    /// Points the edge `edge.id` at the note and the category that `edge`
    /// names, for `user_id`.
    pub fn update(store: &mut Store, edge: NoteCategory, user_id: i32) -> (r: Result<
        NoteCategory,
        ApiError,
    >)
        requires
            old(store)@.wf(),
        ensures
            final(store)@.wf(),
            (final(store)@, outcome(r)) == old(store)@.notes_categories_update(edge, user_id),
    {
        let at = match find_note_category_id(&store.notes_categories, edge.id) {
            Some(i) => i,
            None => {
                return Err(ApiError::NotFound);
            },
        };
        proof {
            lemma_note_category_id_index(store@, at as int, edge.id);
        }
        if find_note(&store.notes, store.notes_categories[at].note_id, user_id).is_none() {
            return Err(ApiError::NotFound);
        }
        if find_note(&store.notes, edge.note_id, user_id).is_none() {
            return Err(ApiError::NotFound);
        }
        if find_category(&store.categories, edge.category_id, user_id).is_none() {
            return Err(ApiError::NotFound);
        }
        match find_note_category(&store.notes_categories, edge.note_id, edge.category_id) {
            Some(other) => {
                proof {
                    lemma_note_category_index(store@, other as int, edge.note_id, edge.category_id);
                }
                if other != at {
                    return Err(ApiError::Conflict);
                }
            },
            None => {},
        }
        proof {
            assert forall|i: int|
                note_category_at(store@.notes_categories, i, edge.note_id, edge.category_id) implies i
                == at by {
                lemma_note_category_index(store@, i, edge.note_id, edge.category_id);
            }
            lemma_notes_categories_update_keeps_wf(store@, edge, user_id);
        }
        store.notes_categories.set(at, edge);
        Ok(edge)
    }
}

} // verus!
