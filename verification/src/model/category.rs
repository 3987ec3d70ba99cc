//! Categories: the groups that a user files notes under.

use vstd::prelude::*;
use vstd::string::*;
use crate::error::ApiError;
use crate::model::note::{find_note, note_at};
use crate::model::note_category::{find_note_category, note_category_at};
use crate::model::note_category::NoteCategory;
use crate::model::store::{outcome, views, Db, Store};

verus! {

/// A category as its owner sees it.
#[derive(Debug)]
pub struct Category {
    pub id: i32,
    pub name: String,
}

/// The content of a [`Category`].
pub struct CategoryView {
    pub id: i32,
    pub name: Seq<char>,
}

impl View for Category {
    type V = CategoryView;

    open spec fn view(&self) -> CategoryView {
        CategoryView { id: self.id, name: self.name@ }
    }
}

/// A category together with the user who owns it: a row of the table.
#[derive(Debug)]
pub struct CategoryWU {
    pub id: i32,
    pub name: String,
    pub user_id: i32,
}

/// The content of a [`CategoryWU`].
pub struct CategoryWUView {
    pub id: i32,
    pub name: Seq<char>,
    pub user_id: i32,
}

impl View for CategoryWU {
    type V = CategoryWUView;

    open spec fn view(&self) -> CategoryWUView {
        CategoryWUView { id: self.id, name: self.name@, user_id: self.user_id }
    }
}

impl CategoryWUView {
    /// The row as its owner sees it.
    pub open spec fn category(self) -> CategoryView {
        CategoryView { id: self.id, name: self.name }
    }
}

impl CategoryWU {
    /// The row as its owner sees it.
    pub fn category(&self) -> (r: Category)
        ensures
            r@ == self@.category(),
    {
        Category { id: self.id, name: self.name.clone() }
    }
}

/// What a request to create a category carries.
#[derive(Debug)]
pub struct NewCategory {
    pub name: String,
}

/// The invariant of the table: ids are positive, unique and below the id
/// handed out next.
pub open spec fn categories_wf(rows: Seq<CategoryWUView>, next: i32) -> bool {
    &&& 1 <= next
    &&& forall|i: int| 0 <= i < rows.len() ==> 1 <= (#[trigger] rows[i]).id < next
    &&& forall|i: int, j: int|
        0 <= i < j < rows.len() ==> (#[trigger] rows[i]).id != (#[trigger] rows[j]).id
}

/// Whether row `i` is the category `id` and belongs to `user_id`.
pub open spec fn category_at(rows: Seq<CategoryWUView>, i: int, id: i32, user_id: i32) -> bool {
    0 <= i < rows.len() && rows[i].id == id && rows[i].user_id == user_id
}

/// Whether row `i` is the category `id`, whoever owns it.
pub open spec fn category_id_at(rows: Seq<CategoryWUView>, i: int, id: i32) -> bool {
    0 <= i < rows.len() && rows[i].id == id
}

/// Whether there is a category `id`, whoever owns it.
pub open spec fn category_known(rows: Seq<CategoryWUView>, id: i32) -> bool {
    exists|i: int| category_id_at(rows, i, id)
}

/// The test that keeps the rows of one owner.
pub open spec fn category_of(user_id: i32) -> spec_fn(CategoryWUView) -> bool {
    |r: CategoryWUView| r.user_id == user_id
}

/// The test that keeps the rows of one owner that are attached to the note
/// `note_id`.
pub open spec fn category_on(edges: Seq<NoteCategory>, note_id: i32, user_id: i32) -> spec_fn(
    CategoryWUView,
) -> bool {
    |r: CategoryWUView| r.user_id == user_id && exists|i: int| note_category_at(edges, i, note_id, r.id)
}

/// The step from a row to what its owner sees.
pub open spec fn category_seen() -> spec_fn(CategoryWUView) -> CategoryView {
    |r: CategoryWUView| r.category()
}

impl Db {
    /// Whether `user_id` owns a category with the id `id`.
    pub open spec fn has_category(self, id: i32, user_id: i32) -> bool {
        exists|i: int| category_at(self.categories, i, id, user_id)
    }

    /// The row of the category `id` of `user_id`, where there is one.
    pub open spec fn category_index(self, id: i32, user_id: i32) -> int {
        choose|i: int| category_at(self.categories, i, id, user_id)
    }

    /// The categories of `user_id`, oldest first.
    pub open spec fn categories_all(self, user_id: i32) -> Seq<CategoryView> {
        self.categories.filter(category_of(user_id)).map_values(category_seen())
    }

    /// The category `id` as `user_id` sees it. A category of another user is not
    /// found, exactly as one that does not exist.
    pub open spec fn categories_get(self, id: i32, user_id: i32) -> Result<CategoryView, ApiError> {
        if self.has_category(id, user_id) {
            Ok(self.categories[self.category_index(id, user_id)].category())
        } else {
            Err(ApiError::NotFound)
        }
    }

    /// The categories of `user_id` that are attached to the note `note_id`,
    /// oldest first; none where the note is not a note of `user_id`.
    pub open spec fn categories_for_note(self, note_id: i32, user_id: i32) -> Seq<CategoryView> {
        if self.has_note(note_id, user_id) {
            self.categories.filter(category_on(self.notes_categories, note_id, user_id)).map_values(
                category_seen(),
            )
        } else {
            Seq::empty()
        }
    }

    /// Creating a category for `user_id`: the store afterwards and the answer.
    /// The category gets the next id. It fails, changing nothing, only when the
    /// ids are used up.
    pub open spec fn categories_new(self, name: Seq<char>, user_id: i32) -> (
        Db,
        Result<CategoryView, ApiError>,
    ) {
        if self.next_category == i32::MAX {
            (self, Err(ApiError::Conflict))
        } else {
            let row = CategoryWUView { id: self.next_category, name: name, user_id: user_id };
            (
                Db { categories: self.categories.push(row), next_category: (self.next_category + 1) as i32, ..self },
                Ok(row.category()),
            )
        }
    }

    /// Renaming the category `id` of `user_id`: the store afterwards and the
    /// answer.
    pub open spec fn categories_update(self, id: i32, name: Seq<char>, user_id: i32) -> (
        Db,
        Result<CategoryView, ApiError>,
    ) {
        if self.has_category(id, user_id) {
            let i = self.category_index(id, user_id);
            let row = CategoryWUView { name: name, ..self.categories[i] };
            (Db { categories: self.categories.update(i, row), ..self }, Ok(row.category()))
        } else {
            (self, Err(ApiError::NotFound))
        }
    }

    /// Deleting the category `id` of `user_id`: the store afterwards and the
    /// answer, which is the category as it was. The edges of the category go with
    /// it.
    pub open spec fn categories_delete(self, id: i32, user_id: i32) -> (Db, Result<CategoryView, ApiError>) {
        if self.has_category(id, user_id) {
            let i = self.category_index(id, user_id);
            (
                Db {
                    categories: self.categories.remove(i),
                    notes_categories: self.notes_categories.filter(
                        crate::model::note_category::not_of_category(id),
                    ),
                    ..self
                },
                Ok(self.categories[i].category()),
            )
        } else {
            (self, Err(ApiError::NotFound))
        }
    }
}

/// An owned category has exactly one row.
pub proof fn lemma_category_index(db: Db, i: int, id: i32, user_id: i32)
    requires
        categories_wf(db.categories, db.next_category),
        category_at(db.categories, i, id, user_id),
    ensures
        db.has_category(id, user_id),
        db.category_index(id, user_id) == i,
{
    let k = db.category_index(id, user_id);
    assert(category_at(db.categories, k, id, user_id));
    if k < i {
        assert(db.categories[k].id != db.categories[i].id);
    } else if i < k {
        assert(db.categories[i].id != db.categories[k].id);
    }
}

/// Looks for the row of the category `id` of `user_id`.
pub(crate) fn find_category(rows: &Vec<CategoryWU>, id: i32, user_id: i32) -> (r: Option<usize>)
    ensures
        match r {
            Some(i) => category_at(views(rows@), i as int, id, user_id),
            None => forall|i: int| !category_at(views(rows@), i, id, user_id),
        },
{
    let mut i: usize = 0;
    while i < rows.len()
        invariant
            i <= rows.len(),
            forall|k: int| 0 <= k < i ==> !category_at(views(rows@), k, id, user_id),
        decreases rows.len() - i,
    {
        if rows[i].id == id && rows[i].user_id == user_id {
            return Some(i);
        }
        i = i + 1;
    }
    None
}

/// Taking a row out keeps the table's invariant.
pub proof fn lemma_category_remove_keeps_wf(rows: Seq<CategoryWUView>, next: i32, at: int)
    requires
        categories_wf(rows, next),
        0 <= at < rows.len(),
    ensures
        categories_wf(rows.remove(at), next),
{
    let rest = rows.remove(at);
    assert forall|i: int| 0 <= i < rest.len() implies 1 <= (#[trigger] rest[i]).id < next by {
        if i < at {
            assert(rest[i] == rows[i]);
        } else {
            assert(rest[i] == rows[i + 1]);
        }
    }
    assert forall|i: int, j: int| 0 <= i < j < rest.len() implies (#[trigger] rest[i]).id != (
    #[trigger] rest[j]).id by {
        let a = if i < at { i } else { i + 1 };
        let b = if j < at { j } else { j + 1 };
        assert(rest[i] == rows[a]);
        assert(rest[j] == rows[b]);
        assert(rows[a].id != rows[b].id);
    }
}

/// A category stays known when a row is added.
pub proof fn lemma_category_known_push(rows: Seq<CategoryWUView>, row: CategoryWUView, id: i32)
    requires
        category_known(rows, id),
    ensures
        category_known(rows.push(row), id),
{
    let i = choose|i: int| category_id_at(rows, i, id);
    assert(category_id_at(rows.push(row), i, id));
}

/// A category stays known when a row is replaced by one with the same id.
pub proof fn lemma_category_known_update(rows: Seq<CategoryWUView>, at: int, row: CategoryWUView, id: i32)
    requires
        0 <= at < rows.len(),
        row.id == rows[at].id,
        category_known(rows, id),
    ensures
        category_known(rows.update(at, row), id),
{
    let i = choose|i: int| category_id_at(rows, i, id);
    assert(category_id_at(rows.update(at, row), i, id));
}

/// A category stays known when the row of another category is taken out.
pub proof fn lemma_category_known_remove(rows: Seq<CategoryWUView>, at: int, id: i32)
    requires
        0 <= at < rows.len(),
        id != rows[at].id,
        category_known(rows, id),
    ensures
        category_known(rows.remove(at), id),
{
    let i = choose|i: int| category_id_at(rows, i, id);
    if i < at {
        assert(category_id_at(rows.remove(at), i, id));
    } else {
        assert(category_id_at(rows.remove(at), i - 1, id));
    }
}

/// Creating a category keeps the store's invariant.
pub proof fn lemma_categories_new_keeps_wf(db: Db, name: Seq<char>, user_id: i32)
    requires
        db.wf(),
    ensures
        db.categories_new(name, user_id).0.wf(),
{
    let next = db.categories_new(name, user_id).0;
    if db.next_category != i32::MAX {
        let row = next.categories[db.categories.len() as int];
        assert forall|i: int, j: int| 0 <= i < j < next.categories.len() implies (
        #[trigger] next.categories[i]).id != (#[trigger] next.categories[j]).id by {
            assert(next.categories[i] == db.categories[i]);
            if j < db.categories.len() {
                assert(next.categories[j] == db.categories[j]);
            }
        }
        assert forall|i: int| 0 <= i < next.categories.len() implies 1 <= (
        #[trigger] next.categories[i]).id < next.next_category by {
            if i < db.categories.len() {
                assert(next.categories[i] == db.categories[i]);
            }
        }
        crate::model::note_category::lemma_refer_after_category_push(
            db.notes_categories,
            db.notes,
            db.categories,
            row,
        );
    }
}

/// Renaming a category keeps the store's invariant.
pub proof fn lemma_categories_update_keeps_wf(db: Db, id: i32, name: Seq<char>, user_id: i32)
    requires
        db.wf(),
    ensures
        db.categories_update(id, name, user_id).0.wf(),
{
    let next = db.categories_update(id, name, user_id).0;
    if db.has_category(id, user_id) {
        let at = db.category_index(id, user_id);
        assert(category_at(db.categories, at, id, user_id));
        let row = next.categories[at];
        assert forall|i: int, j: int| 0 <= i < j < next.categories.len() implies (
        #[trigger] next.categories[i]).id != (#[trigger] next.categories[j]).id by {
            assert(db.categories[i].id != db.categories[j].id);
        }
        assert forall|i: int| 0 <= i < next.categories.len() implies 1 <= (
        #[trigger] next.categories[i]).id < next.next_category by {
            assert(1 <= db.categories[i].id < db.next_category);
        }
        crate::model::note_category::lemma_refer_after_category_update(
            db.notes_categories,
            db.notes,
            db.categories,
            at,
            row,
        );
    }
}

/// Deleting a category keeps the store's invariant.
pub proof fn lemma_categories_delete_keeps_wf(db: Db, id: i32, user_id: i32)
    requires
        db.wf(),
    ensures
        db.categories_delete(id, user_id).0.wf(),
{
    if db.has_category(id, user_id) {
        let at = db.category_index(id, user_id);
        assert(category_at(db.categories, at, id, user_id));
        lemma_category_remove_keeps_wf(db.categories, db.next_category, at);
        crate::model::note_category::lemma_filter_keeps_wf(
            db.notes_categories,
            db.next_note_category,
            crate::model::note_category::not_of_category(id),
        );
        crate::model::note_category::lemma_refer_after_category_remove(
            db.notes_categories,
            db.notes,
            db.categories,
            at,
        );
    }
}

/// Whether there is a category `id`, whoever owns it.
pub(crate) fn category_exists(rows: &Vec<CategoryWU>, id: i32) -> (r: bool)
    ensures
        r == category_known(views(rows@), id),
{
    let mut i: usize = 0;
    while i < rows.len()
        invariant
            i <= rows.len(),
            forall|k: int| 0 <= k < i ==> !category_id_at(views(rows@), k, id),
        decreases rows.len() - i,
    {
        if rows[i].id == id {
            assert(category_id_at(views(rows@), i as int, id));
            return true;
        }
        i = i + 1;
    }
    false
}

/// Checks the table's invariant.
pub fn categories_ok(rows: &Vec<CategoryWU>, next: i32) -> (r: bool)
    ensures
        r == categories_wf(views(rows@), next),
{
    if next < 1 {
        return false;
    }
    let ghost all = views(rows@);
    let mut i: usize = 0;
    while i < rows.len()
        invariant
            i <= rows.len(),
            1 <= next,
            all == views(rows@),
            forall|a: int| 0 <= a < i ==> 1 <= (#[trigger] all[a]).id < next,
            forall|a: int, b: int|
                0 <= a < b < i ==> (#[trigger] all[a]).id != (#[trigger] all[b]).id,
        decreases rows.len() - i,
    {
        if rows[i].id < 1 || rows[i].id >= next {
            assert(!(1 <= all[i as int].id < next));
            return false;
        }
        let mut j: usize = 0;
        while j < i
            invariant
                j <= i,
                i < rows.len(),
                all == views(rows@),
                forall|a: int| 0 <= a < j ==> (#[trigger] all[a]).id != all[i as int].id,
            decreases i - j,
        {
            if rows[j].id == rows[i].id {
                assert(all[j as int].id == all[i as int].id);
                return false;
            }
            j = j + 1;
        }
        i = i + 1;
    }
    true
}

impl Category {
    /// Every category of `user_id`, oldest first.
    pub fn all(store: &Store, user_id: i32) -> (r: Vec<Category>)
        ensures
            views(r@) == store@.categories_all(user_id),
    {
        let mut out: Vec<Category> = Vec::new();
        let mut i: usize = 0;
        let ghost rows = store@.categories;
        proof {
            assert(rows.take(0) =~= Seq::empty());
            assert(rows.take(0).filter(category_of(user_id)) =~= Seq::empty()) by {
                reveal(Seq::filter);
            }
            assert(views(out@) =~= rows.take(0).filter(category_of(user_id)).map_values(category_seen()));
        }
        while i < store.categories.len()
            invariant
                i <= store.categories.len(),
                rows == store@.categories,
                rows.len() == store.categories.len(),
                views(out@) == rows.take(i as int).filter(category_of(user_id)).map_values(
                    category_seen(),
                ),
            decreases store.categories.len() - i,
        {
            let ghost before = views(out@);
            let ghost kept = rows.take(i as int).filter(category_of(user_id));
            proof {
                rows.lemma_take_succ_push(i as int);
                rows.take(i as int).lemma_filter_push(rows[i as int], category_of(user_id));
                assert(rows[i as int] == store.categories[i as int]@);
            }
            if store.categories[i].user_id == user_id {
                out.push(store.categories[i].category());
                proof {
                    kept.lemma_push_map_commute(category_seen(), rows[i as int]);
                    assert(views(out@) =~= before.push(rows[i as int].category()));
                }
            }
            i = i + 1;
        }
        proof {
            assert(rows.take(i as int) =~= rows);
        }
        out
    }

    /// The category `id` as `user_id` sees it.
    pub fn get(store: &Store, id: i32, user_id: i32) -> (r: Result<Category, ApiError>)
        requires
            store@.wf(),
        ensures
            outcome(r) == store@.categories_get(id, user_id),
    {
        match find_category(&store.categories, id, user_id) {
            Some(i) => {
                proof {
                    lemma_category_index(store@, i as int, id, user_id);
                }
                Ok(store.categories[i].category())
            },
            None => Err(ApiError::NotFound),
        }
    }

    /// The categories of `user_id` that are attached to the note `note_id`,
    /// oldest first.
    pub fn get_categories_for_note(store: &Store, note_id: i32, user_id: i32) -> (r: Vec<Category>)
        ensures
            views(r@) == store@.categories_for_note(note_id, user_id),
    {
        let mut out: Vec<Category> = Vec::new();
        match find_note(&store.notes, note_id, user_id) {
            None => {
                assert(views(out@) =~= Seq::empty());
                return out;
            },
            Some(k) => {
                assert(note_at(store@.notes, k as int, note_id, user_id));
            },
        }
        let mut i: usize = 0;
        let ghost rows = store@.categories;
        let ghost keep = category_on(store@.notes_categories, note_id, user_id);
        proof {
            assert(rows.take(0) =~= Seq::empty());
            assert(rows.take(0).filter(keep) =~= Seq::empty()) by {
                reveal(Seq::filter);
            }
            assert(views(out@) =~= rows.take(0).filter(keep).map_values(category_seen()));
        }
        while i < store.categories.len()
            invariant
                i <= store.categories.len(),
                rows == store@.categories,
                rows.len() == store.categories.len(),
                keep == category_on(store@.notes_categories, note_id, user_id),
                store@.has_note(note_id, user_id),
                views(out@) == rows.take(i as int).filter(keep).map_values(category_seen()),
            decreases store.categories.len() - i,
        {
            let ghost before = views(out@);
            let ghost kept = rows.take(i as int).filter(keep);
            proof {
                rows.lemma_take_succ_push(i as int);
                rows.take(i as int).lemma_filter_push(rows[i as int], keep);
                assert(rows[i as int] == store.categories[i as int]@);
            }
            let attached = find_note_category(&store.notes_categories, note_id, store.categories[i].id);
            proof {
                match attached {
                    Some(k) => {
                        assert(note_category_at(store@.notes_categories, k as int, note_id, rows[i as int].id));
                    },
                    None => {},
                }
                assert(keep(rows[i as int]) == (rows[i as int].user_id == user_id
                    && attached.is_some()));
            }
            if store.categories[i].user_id == user_id && attached.is_some() {
                out.push(store.categories[i].category());
                proof {
                    kept.lemma_push_map_commute(category_seen(), rows[i as int]);
                    assert(views(out@) =~= before.push(rows[i as int].category()));
                }
            }
            i = i + 1;
        }
        proof {
            assert(rows.take(i as int) =~= rows);
        }
        out
    }

    /// Creates a category named `name` for `user_id` and returns it with its
    /// new id.
    pub fn new(store: &mut Store, name: &str, user_id: i32) -> (r: Result<Category, ApiError>)
        requires
            old(store)@.wf(),
        ensures
            final(store)@.wf(),
            (final(store)@, outcome(r)) == old(store)@.categories_new(name@, user_id),
    {
        if store.next_category == i32::MAX {
            return Err(ApiError::Conflict);
        }
        let id: i32 = store.next_category;
        let row = CategoryWU { id: id, name: name.to_owned(), user_id: user_id };
        let seen = row.category();
        store.categories.push(row);
        store.next_category = id + 1;
        proof {
            let spec_db = old(store)@.categories_new(name@, user_id).0;
            assert(store@.categories =~= spec_db.categories);
            assert(store@ == spec_db);
            lemma_categories_new_keeps_wf(old(store)@, name@, user_id);
        }
        Ok(seen)
    }

    /// Renames the category `category.id` of `user_id` to `category.name`.
    pub fn update(store: &mut Store, category: Category, user_id: i32) -> (r: Result<Category, ApiError>)
        requires
            old(store)@.wf(),
        ensures
            final(store)@.wf(),
            (final(store)@, outcome(r)) == old(store)@.categories_update(category.id, category.name@, user_id),
    {
        match find_category(&store.categories, category.id, user_id) {
            Some(i) => {
                proof {
                    lemma_category_index(store@, i as int, category.id, user_id);
                }
                let row = CategoryWU { id: category.id, name: category.name, user_id: user_id };
                let seen = row.category();
                store.categories.set(i, row);
                proof {
                    let spec_db = old(store)@.categories_update(category.id, category.name@, user_id).0;
                    assert(store@.categories =~= spec_db.categories);
                    assert(store@ == spec_db);
                    lemma_categories_update_keeps_wf(old(store)@, category.id, category.name@, user_id);
                }
                Ok(seen)
            },
            None => Err(ApiError::NotFound),
        }
    }

    /// Deletes the category `id` of `user_id`, with its edges, and returns it
    /// as it was.
    pub fn delete(store: &mut Store, id: i32, user_id: i32) -> (r: Result<Category, ApiError>)
        requires
            old(store)@.wf(),
        ensures
            final(store)@.wf(),
            (final(store)@, outcome(r)) == old(store)@.categories_delete(id, user_id),
    {
        match find_category(&store.categories, id, user_id) {
            Some(i) => {
                proof {
                    lemma_category_index(store@, i as int, id, user_id);
                    lemma_categories_delete_keeps_wf(store@, id, user_id);
                }
                let row = store.categories.remove(i);
                store.notes_categories = crate::model::note_category::without_category(&store.notes_categories, id);
                proof {
                    let spec_db = old(store)@.categories_delete(id, user_id).0;
                    assert(store@.categories =~= spec_db.categories);
                    assert(store@ == spec_db);
                }
                Ok(Category { id: row.id, name: row.name })
            },
            None => Err(ApiError::NotFound),
        }
    }
}

} // verus!
