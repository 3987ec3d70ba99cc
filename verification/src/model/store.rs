//! The store: every table of the service as plain rows, with the id that
//! each table hands out next.
//!
//! A [`Store`] is a value, not a connection: repositories take it as an
//! explicit argument. Its view, [`Db`], is what every contract speaks of.

use vstd::prelude::*;
use crate::error::ApiError;
use crate::model::category::{categories_ok, categories_wf, CategoryWU, CategoryWUView};
use crate::model::label::{labels_ok, labels_wf, LabelWU, LabelWUView};
use crate::model::note::{notes_ok, notes_wf, NoteWU, NoteWUView};
use crate::model::note_category::{
    notes_categories_ok, notes_categories_refer, notes_categories_refer_ok, notes_categories_wf,
    NoteCategory,
};
use crate::model::note_label::{
    notes_labels_ok, notes_labels_refer, notes_labels_refer_ok, notes_labels_wf, NoteLabel,
};
use crate::model::user::{users_ok, users_wf, User, UserView};
use crate::model::user_label::{
    users_labels_ok, users_labels_refer, users_labels_refer_ok, users_labels_wf, UserLabel,
};

verus! {

/// The views of the elements of a sequence.
pub open spec fn views<T: View>(s: Seq<T>) -> Seq<T::V> {
    s.map_values(|t: T| t@)
}

/// The view of a repository's answer: the view of the value it found, or the
/// failure it reports.
pub open spec fn outcome<T: View>(r: Result<T, ApiError>) -> Result<T::V, ApiError> {
    match r {
        Ok(value) => Ok(value@),
        Err(e) => Err(e),
    }
}

/// The tables of the service.
pub struct Store {
    pub users: Vec<User>,
    pub notes: Vec<NoteWU>,
    pub labels: Vec<LabelWU>,
    pub categories: Vec<CategoryWU>,
    pub notes_labels: Vec<NoteLabel>,
    pub notes_categories: Vec<NoteCategory>,
    pub users_labels: Vec<UserLabel>,
    pub next_user: i32,
    pub next_note: i32,
    pub next_label: i32,
    pub next_category: i32,
    pub next_note_label: i32,
    pub next_note_category: i32,
    pub next_user_label: i32,
}

/// The mathematical content of a [`Store`].
pub struct Db {
    pub users: Seq<UserView>,
    pub notes: Seq<NoteWUView>,
    pub labels: Seq<LabelWUView>,
    pub categories: Seq<CategoryWUView>,
    pub notes_labels: Seq<NoteLabel>,
    pub notes_categories: Seq<NoteCategory>,
    pub users_labels: Seq<UserLabel>,
    pub next_user: i32,
    pub next_note: i32,
    pub next_label: i32,
    pub next_category: i32,
    pub next_note_label: i32,
    pub next_note_category: i32,
    pub next_user_label: i32,
}

impl View for Store {
    type V = Db;

    open spec fn view(&self) -> Db {
        Db {
            users: views(self.users@),
            notes: views(self.notes@),
            labels: views(self.labels@),
            categories: views(self.categories@),
            notes_labels: self.notes_labels@,
            notes_categories: self.notes_categories@,
            users_labels: self.users_labels@,
            next_user: self.next_user,
            next_note: self.next_note,
            next_label: self.next_label,
            next_category: self.next_category,
            next_note_label: self.next_note_label,
            next_note_category: self.next_note_category,
            next_user_label: self.next_user_label,
        }
    }
}

impl Db {
    /// The store with no rows, whose tables number their rows from one.
    pub open spec fn empty() -> Db {
        Db {
            users: Seq::empty(),
            notes: Seq::empty(),
            labels: Seq::empty(),
            categories: Seq::empty(),
            notes_labels: Seq::empty(),
            notes_categories: Seq::empty(),
            users_labels: Seq::empty(),
            next_user: 1,
            next_note: 1,
            next_label: 1,
            next_category: 1,
            next_note_label: 1,
            next_note_category: 1,
            next_user_label: 1,
        }
    }

    /// The store's invariant: in every table the ids are positive, unique
    /// and below the id handed out next; no two users share an e-mail
    /// address; no edge table holds the same pair twice; and every edge
    /// joins rows that exist.
    pub open spec fn wf(self) -> bool {
        &&& users_wf(self.users, self.next_user)
        &&& notes_wf(self.notes, self.next_note)
        &&& labels_wf(self.labels, self.next_label)
        &&& categories_wf(self.categories, self.next_category)
        &&& notes_labels_wf(self.notes_labels, self.next_note_label)
        &&& notes_categories_wf(self.notes_categories, self.next_note_category)
        &&& users_labels_wf(self.users_labels, self.next_user_label)
        &&& notes_labels_refer(self.notes_labels, self.notes, self.labels)
        &&& notes_categories_refer(self.notes_categories, self.notes, self.categories)
        &&& users_labels_refer(self.users_labels, self.labels)
    }
}

impl Store {
    /// A store with no rows.
    pub fn new() -> (r: Store)
        ensures
            r@ == Db::empty(),
            r@.wf(),
    {
        let r = Store {
            users: Vec::new(),
            notes: Vec::new(),
            labels: Vec::new(),
            categories: Vec::new(),
            notes_labels: Vec::new(),
            notes_categories: Vec::new(),
            users_labels: Vec::new(),
            next_user: 1,
            next_note: 1,
            next_label: 1,
            next_category: 1,
            next_note_label: 1,
            next_note_category: 1,
            next_user_label: 1,
        };
        assert(r@.users =~= Seq::empty());
        assert(r@.notes =~= Seq::empty());
        assert(r@.labels =~= Seq::empty());
        assert(r@.categories =~= Seq::empty());
        r
    }

    /// Checks the store's invariant. A store that was made by [`Store::new`]
    /// and changed through the repositories alone always passes; one that
    /// was put together from rows read elsewhere has to be checked before
    /// it is used.
    pub fn is_wf(&self) -> (r: bool)
        ensures
            r == self@.wf(),
    {
        users_ok(&self.users, self.next_user) && notes_ok(&self.notes, self.next_note) && labels_ok(
            &self.labels,
            self.next_label,
        ) && categories_ok(&self.categories, self.next_category) && notes_labels_ok(
            &self.notes_labels,
            self.next_note_label,
        ) && notes_categories_ok(&self.notes_categories, self.next_note_category)
            && users_labels_ok(&self.users_labels, self.next_user_label) && notes_labels_refer_ok(
            &self.notes_labels,
            &self.notes,
            &self.labels,
        ) && notes_categories_refer_ok(&self.notes_categories, &self.notes, &self.categories)
            && users_labels_refer_ok(&self.users_labels, &self.labels)
    }
}

} // verus!
