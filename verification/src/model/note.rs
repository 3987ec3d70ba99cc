//! Notes: the repository of a user's notes.

use vstd::prelude::*;
use vstd::string::*;
use crate::error::ApiError;
use crate::model::category::Category;
use crate::model::label::Label;
use crate::model::note_category::NoteCategory;
use crate::model::note_label::NoteLabel;
use crate::model::store::{outcome, views, Db, Store};
use crate::text::opt_text;

verus! {

/// A note as its owner sees it.
#[derive(Debug)]
pub struct Note {
    pub id: i32,
    pub title: String,
    pub body: String,
    /// When the note was created, in Unix seconds.
    pub created_at: u64,
    /// When the note was last changed, in Unix seconds.
    pub updated_at: u64,
}

/// The content of a [`Note`].
pub struct NoteView {
    pub id: i32,
    pub title: Seq<char>,
    pub body: Seq<char>,
    pub created_at: u64,
    pub updated_at: u64,
}

impl View for Note {
    type V = NoteView;

    open spec fn view(&self) -> NoteView {
        NoteView {
            id: self.id,
            title: self.title@,
            body: self.body@,
            created_at: self.created_at,
            updated_at: self.updated_at,
        }
    }
}

/// A note together with the user who owns it: a row of the table.
#[derive(Debug)]
pub struct NoteWU {
    pub id: i32,
    pub title: String,
    pub body: String,
    pub created_at: u64,
    pub updated_at: u64,
    pub user_id: i32,
}

/// The content of a [`NoteWU`].
pub struct NoteWUView {
    pub id: i32,
    pub title: Seq<char>,
    pub body: Seq<char>,
    pub created_at: u64,
    pub updated_at: u64,
    pub user_id: i32,
}

impl View for NoteWU {
    type V = NoteWUView;

    open spec fn view(&self) -> NoteWUView {
        NoteWUView {
            id: self.id,
            title: self.title@,
            body: self.body@,
            created_at: self.created_at,
            updated_at: self.updated_at,
            user_id: self.user_id,
        }
    }
}

impl NoteWUView {
    /// The row as its owner sees it.
    pub open spec fn note(self) -> NoteView {
        NoteView {
            id: self.id,
            title: self.title,
            body: self.body,
            created_at: self.created_at,
            updated_at: self.updated_at,
        }
    }

    /// The row after a change at time `now` that sets the title and the body
    /// where one is given. The time of the last change never moves back.
    pub open spec fn patched(self, title: Option<Seq<char>>, body: Option<Seq<char>>, now: u64) -> NoteWUView {
        NoteWUView {
            title: match title {
                Some(t) => t,
                None => self.title,
            },
            body: match body {
                Some(b) => b,
                None => self.body,
            },
            updated_at: if now > self.updated_at {
                now
            } else {
                self.updated_at
            },
            ..self
        }
    }
}

impl NoteWU {
    /// The row as its owner sees it.
    pub fn note(&self) -> (r: Note)
        ensures
            r@ == self@.note(),
    {
        Note {
            id: self.id,
            title: self.title.clone(),
            body: self.body.clone(),
            created_at: self.created_at,
            updated_at: self.updated_at,
        }
    }
}

/// What a request to create a note carries. A missing body stands for the
/// empty body.
#[derive(Debug)]
pub struct NewNote {
    pub title: String,
    pub body: Option<String>,
}

/// What a request to change a note carries: the id of the note, and a new
/// value for each field that is to change.
#[derive(Debug)]
pub struct UpdateNote {
    pub id: i32,
    pub title: Option<String>,
    pub body: Option<String>,
}

/// The invariant of the table: ids are positive, unique and below the id
/// handed out next.
pub open spec fn notes_wf(rows: Seq<NoteWUView>, next: i32) -> bool {
    &&& 1 <= next
    &&& forall|i: int| 0 <= i < rows.len() ==> 1 <= (#[trigger] rows[i]).id < next
    &&& forall|i: int, j: int|
        0 <= i < j < rows.len() ==> (#[trigger] rows[i]).id != (#[trigger] rows[j]).id
}

/// Whether row `i` is the note `id` and belongs to `user_id`.
pub open spec fn note_at(rows: Seq<NoteWUView>, i: int, id: i32, user_id: i32) -> bool {
    0 <= i < rows.len() && rows[i].id == id && rows[i].user_id == user_id
}

/// Whether row `i` is the note `id`, whoever owns it.
pub open spec fn note_id_at(rows: Seq<NoteWUView>, i: int, id: i32) -> bool {
    0 <= i < rows.len() && rows[i].id == id
}

/// Whether there is a note `id`, whoever owns it.
pub open spec fn note_known(rows: Seq<NoteWUView>, id: i32) -> bool {
    exists|i: int| note_id_at(rows, i, id)
}

/// The test that keeps the rows of one owner.
pub open spec fn note_of(user_id: i32) -> spec_fn(NoteWUView) -> bool {
    |r: NoteWUView| r.user_id == user_id
}

/// The step from a row to what its owner sees.
pub open spec fn note_seen() -> spec_fn(NoteWUView) -> NoteView {
    |r: NoteWUView| r.note()
}

impl Db {
    /// Whether `user_id` owns a note with the id `id`.
    pub open spec fn has_note(self, id: i32, user_id: i32) -> bool {
        exists|i: int| note_at(self.notes, i, id, user_id)
    }

    /// The row of the note `id` of `user_id`, where there is one.
    pub open spec fn note_index(self, id: i32, user_id: i32) -> int {
        choose|i: int| note_at(self.notes, i, id, user_id)
    }

    /// The notes of `user_id`, oldest first.
    pub open spec fn notes_all(self, user_id: i32) -> Seq<NoteView> {
        self.notes.filter(note_of(user_id)).map_values(note_seen())
    }

    /// The note `id` as `user_id` sees it. A note of another user is not
    /// found, exactly as one that does not exist.
    pub open spec fn notes_get(self, id: i32, user_id: i32) -> Result<NoteView, ApiError> {
        if self.has_note(id, user_id) {
            Ok(self.notes[self.note_index(id, user_id)].note())
        } else {
            Err(ApiError::NotFound)
        }
    }

    /// Creating a note for `user_id` at time `now`: the store afterwards and
    /// the answer. The note gets the next id; a missing body is the empty
    /// body. It fails, changing nothing, only when the ids are used up.
    pub open spec fn notes_new(
        self,
        title: Seq<char>,
        body: Option<Seq<char>>,
        user_id: i32,
        now: u64,
    ) -> (Db, Result<NoteView, ApiError>) {
        if self.next_note == i32::MAX {
            (self, Err(ApiError::Conflict))
        } else {
            let row = NoteWUView {
                id: self.next_note,
                title: title,
                body: match body {
                    Some(b) => b,
                    None => Seq::empty(),
                },
                created_at: now,
                updated_at: now,
                user_id: user_id,
            };
            (
                Db { notes: self.notes.push(row), next_note: (self.next_note + 1) as i32, ..self },
                Ok(row.note()),
            )
        }
    }

    /// Changing the note `id` of `user_id` at time `now`: the store
    /// afterwards and the answer. Only the fields that are given change.
    pub open spec fn notes_update(
        self,
        id: i32,
        title: Option<Seq<char>>,
        body: Option<Seq<char>>,
        user_id: i32,
        now: u64,
    ) -> (Db, Result<NoteView, ApiError>) {
        if self.has_note(id, user_id) {
            let i = self.note_index(id, user_id);
            let row = self.notes[i].patched(title, body, now);
            (Db { notes: self.notes.update(i, row), ..self }, Ok(row.note()))
        } else {
            (self, Err(ApiError::NotFound))
        }
    }

    /// Deleting the note `id` of `user_id`: the store afterwards and the
    /// answer, which is the note as it was. The edges of the note go with
    /// it.
    pub open spec fn notes_delete(self, id: i32, user_id: i32) -> (Db, Result<NoteView, ApiError>) {
        if self.has_note(id, user_id) {
            let i = self.note_index(id, user_id);
            (
                Db {
                    notes: self.notes.remove(i),
                    notes_labels: self.notes_labels.filter(
                        crate::model::note_label::not_of_note(id),
                    ),
                    notes_categories: self.notes_categories.filter(
                        crate::model::note_category::not_of_note(id),
                    ),
                    ..self
                },
                Ok(self.notes[i].note()),
            )
        } else {
            (self, Err(ApiError::NotFound))
        }
    }
}

/// An owned note has exactly one row.
pub proof fn lemma_note_index(db: Db, i: int, id: i32, user_id: i32)
    requires
        notes_wf(db.notes, db.next_note),
        note_at(db.notes, i, id, user_id),
    ensures
        db.has_note(id, user_id),
        db.note_index(id, user_id) == i,
{
    let k = db.note_index(id, user_id);
    assert(note_at(db.notes, k, id, user_id));
    if k < i {
        assert(db.notes[k].id != db.notes[i].id);
    } else if i < k {
        assert(db.notes[i].id != db.notes[k].id);
    }
}

/// Looks for the row of the note `id` of `user_id`.
pub(crate) fn find_note(rows: &Vec<NoteWU>, id: i32, user_id: i32) -> (r: Option<usize>)
    ensures
        match r {
            Some(i) => note_at(views(rows@), i as int, id, user_id),
            None => forall|i: int| !note_at(views(rows@), i, id, user_id),
        },
{
    let mut i: usize = 0;
    while i < rows.len()
        invariant
            i <= rows.len(),
            forall|k: int| 0 <= k < i ==> !note_at(views(rows@), k, id, user_id),
        decreases rows.len() - i,
    {
        if rows[i].id == id && rows[i].user_id == user_id {
            return Some(i);
        }
        i = i + 1;
    }
    None
}

/// Taking a row out keeps the table's invariant.
pub proof fn lemma_note_remove_keeps_wf(rows: Seq<NoteWUView>, next: i32, at: int)
    requires
        notes_wf(rows, next),
        0 <= at < rows.len(),
    ensures
        notes_wf(rows.remove(at), next),
{
    let rest = rows.remove(at);
    assert forall|i: int| 0 <= i < rest.len() implies 1 <= (#[trigger] rest[i]).id < next by {
        if i < at {
            assert(rest[i] == rows[i]);
        } else {
            assert(rest[i] == rows[i + 1]);
        }
    }
    assert forall|i: int, j: int| 0 <= i < j < rest.len() implies (#[trigger] rest[i]).id != (
    #[trigger] rest[j]).id by {
        let a = if i < at { i } else { i + 1 };
        let b = if j < at { j } else { j + 1 };
        assert(rest[i] == rows[a]);
        assert(rest[j] == rows[b]);
        assert(rows[a].id != rows[b].id);
    }
}

/// A note stays known when a row is added.
pub proof fn lemma_note_known_push(rows: Seq<NoteWUView>, row: NoteWUView, id: i32)
    requires
        note_known(rows, id),
    ensures
        note_known(rows.push(row), id),
{
    let i = choose|i: int| note_id_at(rows, i, id);
    assert(note_id_at(rows.push(row), i, id));
}

/// A note stays known when a row is replaced by one with the same id.
pub proof fn lemma_note_known_update(rows: Seq<NoteWUView>, at: int, row: NoteWUView, id: i32)
    requires
        0 <= at < rows.len(),
        row.id == rows[at].id,
        note_known(rows, id),
    ensures
        note_known(rows.update(at, row), id),
{
    let i = choose|i: int| note_id_at(rows, i, id);
    assert(note_id_at(rows.update(at, row), i, id));
}

/// A note stays known when the row of another note is taken out.
pub proof fn lemma_note_known_remove(rows: Seq<NoteWUView>, at: int, id: i32)
    requires
        0 <= at < rows.len(),
        id != rows[at].id,
        note_known(rows, id),
    ensures
        note_known(rows.remove(at), id),
{
    let i = choose|i: int| note_id_at(rows, i, id);
    if i < at {
        assert(note_id_at(rows.remove(at), i, id));
    } else {
        assert(note_id_at(rows.remove(at), i - 1, id));
    }
}

/// Creating a note keeps the store's invariant.
pub proof fn lemma_notes_new_keeps_wf(
    db: Db,
    title: Seq<char>,
    body: Option<Seq<char>>,
    user_id: i32,
    now: u64,
)
    requires
        db.wf(),
    ensures
        db.notes_new(title, body, user_id, now).0.wf(),
{
    let next = db.notes_new(title, body, user_id, now).0;
    if db.next_note != i32::MAX {
        let row = next.notes[db.notes.len() as int];
        assert forall|i: int, j: int| 0 <= i < j < next.notes.len() implies (
        #[trigger] next.notes[i]).id != (#[trigger] next.notes[j]).id by {
            assert(next.notes[i] == db.notes[i]);
            if j < db.notes.len() {
                assert(next.notes[j] == db.notes[j]);
            }
        }
        assert forall|i: int| 0 <= i < next.notes.len() implies 1 <= (
        #[trigger] next.notes[i]).id < next.next_note by {
            if i < db.notes.len() {
                assert(next.notes[i] == db.notes[i]);
            }
        }
        crate::model::note_label::lemma_refer_after_note_push(
            db.notes_labels,
            db.notes,
            db.labels,
            row,
        );
        crate::model::note_category::lemma_refer_after_note_push(
            db.notes_categories,
            db.notes,
            db.categories,
            row,
        );
    }
}

/// Changing a note keeps the store's invariant.
pub proof fn lemma_notes_update_keeps_wf(
    db: Db,
    id: i32,
    title: Option<Seq<char>>,
    body: Option<Seq<char>>,
    user_id: i32,
    now: u64,
)
    requires
        db.wf(),
    ensures
        db.notes_update(id, title, body, user_id, now).0.wf(),
{
    let next = db.notes_update(id, title, body, user_id, now).0;
    if db.has_note(id, user_id) {
        let at = db.note_index(id, user_id);
        assert(note_at(db.notes, at, id, user_id));
        let row = next.notes[at];
        assert forall|i: int, j: int| 0 <= i < j < next.notes.len() implies (
        #[trigger] next.notes[i]).id != (#[trigger] next.notes[j]).id by {
            assert(db.notes[i].id != db.notes[j].id);
        }
        assert forall|i: int| 0 <= i < next.notes.len() implies 1 <= (
        #[trigger] next.notes[i]).id < next.next_note by {
            assert(1 <= db.notes[i].id < db.next_note);
        }
        crate::model::note_label::lemma_refer_after_note_update(
            db.notes_labels,
            db.notes,
            db.labels,
            at,
            row,
        );
        crate::model::note_category::lemma_refer_after_note_update(
            db.notes_categories,
            db.notes,
            db.categories,
            at,
            row,
        );
    }
}

/// Deleting a note keeps the store's invariant.
pub proof fn lemma_notes_delete_keeps_wf(db: Db, id: i32, user_id: i32)
    requires
        db.wf(),
    ensures
        db.notes_delete(id, user_id).0.wf(),
{
    if db.has_note(id, user_id) {
        let at = db.note_index(id, user_id);
        assert(note_at(db.notes, at, id, user_id));
        lemma_note_remove_keeps_wf(db.notes, db.next_note, at);
        crate::model::note_label::lemma_filter_keeps_wf(
            db.notes_labels,
            db.next_note_label,
            crate::model::note_label::not_of_note(id),
        );
        crate::model::note_category::lemma_filter_keeps_wf(
            db.notes_categories,
            db.next_note_category,
            crate::model::note_category::not_of_note(id),
        );
        crate::model::note_label::lemma_refer_after_note_remove(
            db.notes_labels,
            db.notes,
            db.labels,
            at,
        );
        crate::model::note_category::lemma_refer_after_note_remove(
            db.notes_categories,
            db.notes,
            db.categories,
            at,
        );
    }
}

/// Whether there is a note `id`, whoever owns it.
pub(crate) fn note_exists(rows: &Vec<NoteWU>, id: i32) -> (r: bool)
    ensures
        r == note_known(views(rows@), id),
{
    let mut i: usize = 0;
    while i < rows.len()
        invariant
            i <= rows.len(),
            forall|k: int| 0 <= k < i ==> !note_id_at(views(rows@), k, id),
        decreases rows.len() - i,
    {
        if rows[i].id == id {
            assert(note_id_at(views(rows@), i as int, id));
            return true;
        }
        i = i + 1;
    }
    false
}

/// Checks the table's invariant.
pub fn notes_ok(rows: &Vec<NoteWU>, next: i32) -> (r: bool)
    ensures
        r == notes_wf(views(rows@), next),
{
    if next < 1 {
        return false;
    }
    let ghost all = views(rows@);
    let mut i: usize = 0;
    while i < rows.len()
        invariant
            i <= rows.len(),
            1 <= next,
            all == views(rows@),
            forall|a: int| 0 <= a < i ==> 1 <= (#[trigger] all[a]).id < next,
            forall|a: int, b: int|
                0 <= a < b < i ==> (#[trigger] all[a]).id != (#[trigger] all[b]).id,
        decreases rows.len() - i,
    {
        if rows[i].id < 1 || rows[i].id >= next {
            assert(!(1 <= all[i as int].id < next));
            return false;
        }
        let mut j: usize = 0;
        while j < i
            invariant
                j <= i,
                i < rows.len(),
                all == views(rows@),
                forall|a: int| 0 <= a < j ==> (#[trigger] all[a]).id != all[i as int].id,
            decreases i - j,
        {
            if rows[j].id == rows[i].id {
                assert(all[j as int].id == all[i as int].id);
                return false;
            }
            j = j + 1;
        }
        i = i + 1;
    }
    true
}

impl Note {
    /// Every note of `user_id`, oldest first.
    pub fn all(store: &Store, user_id: i32) -> (r: Vec<Note>)
        ensures
            views(r@) == store@.notes_all(user_id),
    {
        let mut out: Vec<Note> = Vec::new();
        let mut i: usize = 0;
        let ghost rows = store@.notes;
        proof {
            assert(rows.take(0) =~= Seq::empty());
            assert(rows.take(0).filter(note_of(user_id)) =~= Seq::empty()) by {
                reveal(Seq::filter);
            }
            assert(views(out@) =~= rows.take(0).filter(note_of(user_id)).map_values(note_seen()));
        }
        while i < store.notes.len()
            invariant
                i <= store.notes.len(),
                rows == store@.notes,
                rows.len() == store.notes.len(),
                views(out@) == rows.take(i as int).filter(note_of(user_id)).map_values(note_seen()),
            decreases store.notes.len() - i,
        {
            let ghost before = views(out@);
            let ghost kept = rows.take(i as int).filter(note_of(user_id));
            proof {
                rows.lemma_take_succ_push(i as int);
                rows.take(i as int).lemma_filter_push(rows[i as int], note_of(user_id));
                assert(rows[i as int] == store.notes[i as int]@);
            }
            if store.notes[i].user_id == user_id {
                out.push(store.notes[i].note());
                proof {
                    kept.lemma_push_map_commute(note_seen(), rows[i as int]);
                    assert(views(out@) =~= before.push(rows[i as int].note()));
                }
            }
            i = i + 1;
        }
        proof {
            assert(rows.take(i as int) =~= rows);
        }
        out
    }

    /// The note `id` as `user_id` sees it.
    pub fn get(store: &Store, id: i32, user_id: i32) -> (r: Result<Note, ApiError>)
        requires
            store@.wf(),
        ensures
            outcome(r) == store@.notes_get(id, user_id),
    {
        match find_note(&store.notes, id, user_id) {
            Some(i) => {
                proof {
                    lemma_note_index(store@, i as int, id, user_id);
                }
                Ok(store.notes[i].note())
            },
            None => Err(ApiError::NotFound),
        }
    }

    /// Creates a note for `user_id` at time `now` and returns it with its
    /// new id.
    pub fn new(store: &mut Store, note: NewNote, user_id: i32, now: u64) -> (r: Result<
        Note,
        ApiError,
    >)
        requires
            old(store)@.wf(),
        ensures
            final(store)@.wf(),
            (final(store)@, outcome(r)) == old(store)@.notes_new(
                note.title@,
                opt_text(note.body),
                user_id,
                now,
            ),
    {
        if store.next_note == i32::MAX {
            return Err(ApiError::Conflict);
        }
        let id: i32 = store.next_note;
        let body = match note.body {
            Some(b) => b,
            None => String::new(),
        };
        let row = NoteWU {
            id: id,
            title: note.title,
            body: body,
            created_at: now,
            updated_at: now,
            user_id: user_id,
        };
        let seen = row.note();
        store.notes.push(row);
        store.next_note = id + 1;
        proof {
            let spec_db = old(store)@.notes_new(note.title@, opt_text(note.body), user_id, now).0;
            assert(store@.notes =~= spec_db.notes);
            assert(store@ == spec_db);
            lemma_notes_new_keeps_wf(old(store)@, note.title@, opt_text(note.body), user_id, now);
        }
        Ok(seen)
    }

    /// Changes the note that `patch` names, for `user_id` at time `now`, and
    /// returns it as it is afterwards.
    pub fn update(store: &mut Store, patch: UpdateNote, user_id: i32, now: u64) -> (r: Result<
        Note,
        ApiError,
    >)
        requires
            old(store)@.wf(),
        ensures
            final(store)@.wf(),
            (final(store)@, outcome(r)) == old(store)@.notes_update(
                patch.id,
                opt_text(patch.title),
                opt_text(patch.body),
                user_id,
                now,
            ),
    {
        match find_note(&store.notes, patch.id, user_id) {
            Some(i) => {
                proof {
                    lemma_note_index(store@, i as int, patch.id, user_id);
                }
                let current = &store.notes[i];
                let row = NoteWU {
                    id: current.id,
                    title: match patch.title {
                        Some(t) => t,
                        None => current.title.clone(),
                    },
                    body: match patch.body {
                        Some(b) => b,
                        None => current.body.clone(),
                    },
                    created_at: current.created_at,
                    updated_at: if now > current.updated_at {
                        now
                    } else {
                        current.updated_at
                    },
                    user_id: current.user_id,
                };
                let seen = row.note();
                store.notes.set(i, row);
                proof {
                    let spec_db = old(store)@.notes_update(
                        patch.id,
                        opt_text(patch.title),
                        opt_text(patch.body),
                        user_id,
                        now,
                    ).0;
                    assert(store@.notes =~= spec_db.notes);
                    assert(store@ == spec_db);
                    lemma_notes_update_keeps_wf(
                        old(store)@,
                        patch.id,
                        opt_text(patch.title),
                        opt_text(patch.body),
                        user_id,
                        now,
                    );
                }
                Ok(seen)
            },
            None => Err(ApiError::NotFound),
        }
    }

    /// Deletes the note `id` of `user_id`, with its edges, and returns it as
    /// it was.
    pub fn delete(store: &mut Store, id: i32, user_id: i32) -> (r: Result<Note, ApiError>)
        requires
            old(store)@.wf(),
        ensures
            final(store)@.wf(),
            (final(store)@, outcome(r)) == old(store)@.notes_delete(id, user_id),
    {
        match find_note(&store.notes, id, user_id) {
            Some(i) => {
                proof {
                    lemma_note_index(store@, i as int, id, user_id);
                    lemma_notes_delete_keeps_wf(store@, id, user_id);
                }
                let row = store.notes.remove(i);
                store.notes_labels = crate::model::note_label::without_note(&store.notes_labels, id);
                store.notes_categories = crate::model::note_category::without_note(
                    &store.notes_categories,
                    id,
                );
                proof {
                    let spec_db = old(store)@.notes_delete(id, user_id).0;
                    assert(store@.notes =~= spec_db.notes);
                    assert(store@ == spec_db);
                }
                Ok(
                    Note {
                        id: row.id,
                        title: row.title,
                        body: row.body,
                        created_at: row.created_at,
                        updated_at: row.updated_at,
                    },
                )
            },
            None => Err(ApiError::NotFound),
        }
    }

    /// Attaches the label `label_id` to this note for `user_id`.
    pub fn set_label(&self, store: &mut Store, label_id: i32, user_id: i32) -> (r: Result<
        NoteLabel,
        ApiError,
    >)
        requires
            old(store)@.wf(),
        ensures
            final(store)@.wf(),
            (final(store)@, outcome(r)) == old(store)@.notes_labels_new(self.id, label_id, user_id),
    {
        NoteLabel::new(store, self.id, label_id, user_id)
    }

    /// Detaches the label `label_id` from this note for `user_id`.
    pub fn unset_label(&self, store: &mut Store, label_id: i32, user_id: i32) -> (r: Result<
        NoteLabel,
        ApiError,
    >)
        requires
            old(store)@.wf(),
        ensures
            final(store)@.wf(),
            (final(store)@, outcome(r)) == old(store)@.notes_labels_delete(
                self.id,
                label_id,
                user_id,
            ),
    {
        NoteLabel::delete(store, self.id, label_id, user_id)
    }

    /// The labels of `user_id` that are attached to this note, oldest first.
    pub fn get_labels(&self, store: &Store, user_id: i32) -> (r: Vec<Label>)
        ensures
            views(r@) == store@.labels_for_note(self.id, user_id),
    {
        Label::get_labels_for_note(store, self.id, user_id)
    }

    /// The label `label_id` as `user_id` sees it.
    pub fn get_label(&self, store: &Store, label_id: i32, user_id: i32) -> (r: Result<
        Label,
        ApiError,
    >)
        requires
            store@.wf(),
        ensures
            outcome(r) == store@.labels_get(label_id, user_id),
    {
        Label::get(store, label_id, user_id)
    }

    /// Files this note under the category `category_id` for `user_id`.
    pub fn set_category(&self, store: &mut Store, category_id: i32, user_id: i32) -> (r: Result<
        NoteCategory,
        ApiError,
    >)
        requires
            old(store)@.wf(),
        ensures
            final(store)@.wf(),
            (final(store)@, outcome(r)) == old(store)@.notes_categories_new(
                self.id,
                category_id,
                user_id,
            ),
    {
        NoteCategory::new(store, self.id, category_id, user_id)
    }

    /// Takes this note out of the category `category_id` for `user_id`.
    pub fn unset_category(&self, store: &mut Store, category_id: i32, user_id: i32) -> (r: Result<
        NoteCategory,
        ApiError,
    >)
        requires
            old(store)@.wf(),
        ensures
            final(store)@.wf(),
            (final(store)@, outcome(r)) == old(store)@.notes_categories_delete(
                self.id,
                category_id,
                user_id,
            ),
    {
        NoteCategory::delete(store, self.id, category_id, user_id)
    }

    /// The categories of `user_id` that this note is filed under, oldest
    /// first.
    pub fn get_categories(&self, store: &Store, user_id: i32) -> (r: Vec<Category>)
        ensures
            views(r@) == store@.categories_for_note(self.id, user_id),
    {
        Category::get_categories_for_note(store, self.id, user_id)
    }

    /// The category `category_id` as `user_id` sees it.
    pub fn get_category(&self, store: &Store, category_id: i32, user_id: i32) -> (r: Result<
        Category,
        ApiError,
    >)
        requires
            store@.wf(),
        ensures
            outcome(r) == store@.categories_get(category_id, user_id),
    {
        Category::get(store, category_id, user_id)
    }
}

} // verus!
