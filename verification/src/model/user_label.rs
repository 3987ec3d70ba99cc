//! The edges between users and labels: which labels a user has taken up.

use vstd::prelude::*;
use crate::error::ApiError;
use crate::model::label::{
    find_label, label_at, label_exists, label_id_at, label_known, lemma_label_known_push,
    lemma_label_known_remove, lemma_label_known_update, LabelWU, LabelWUView,
};
use crate::model::store::{outcome, views, Db, Store};

verus! {

/// One edge: the user `user_id` has taken up the label `label_id`.
#[derive(Clone, Copy, Debug, PartialEq, Eq, Structural)]
pub struct UserLabel {
    pub id: i32,
    pub user_id: i32,
    pub label_id: i32,
}

impl View for UserLabel {
    type V = UserLabel;

    open spec fn view(&self) -> UserLabel {
        *self
    }
}

/// The invariant of the edge table: ids are positive, unique and below the
/// id handed out next, and no (user, label) pair occurs twice.
pub open spec fn users_labels_wf(rows: Seq<UserLabel>, next: i32) -> bool {
    &&& 1 <= next
    &&& forall|i: int| 0 <= i < rows.len() ==> 1 <= (#[trigger] rows[i]).id < next
    &&& forall|i: int, j: int|
        0 <= i < j < rows.len() ==> (#[trigger] rows[i]).id != (#[trigger] rows[j]).id
    &&& forall|i: int, j: int|
        0 <= i < j < rows.len() ==> !((#[trigger] rows[i]).user_id == (#[trigger] rows[j]).user_id
            && rows[i].label_id == rows[j].label_id)
}

/// Every edge names a label that exists.
pub open spec fn users_labels_refer(edges: Seq<UserLabel>, labels: Seq<LabelWUView>) -> bool {
    forall|i: int| 0 <= i < edges.len() ==> label_known(labels, (#[trigger] edges[i]).label_id)
}

/// Whether row `i` is the edge between `user_id` and `label_id`.
pub open spec fn user_label_at(rows: Seq<UserLabel>, i: int, user_id: i32, label_id: i32) -> bool {
    0 <= i < rows.len() && rows[i].user_id == user_id && rows[i].label_id == label_id
}

/// Whether row `i` is the edge with the id `id`.
pub open spec fn user_label_id_at(rows: Seq<UserLabel>, i: int, id: i32) -> bool {
    0 <= i < rows.len() && rows[i].id == id
}

/// The test that keeps the edges of every label but `label_id`.
pub open spec fn not_of_label(label_id: i32) -> spec_fn(UserLabel) -> bool {
    |e: UserLabel| e.label_id != label_id
}

/// The test that keeps the edges of `user_id`.
pub open spec fn edge_of(user_id: i32) -> spec_fn(UserLabel) -> bool {
    |e: UserLabel| e.user_id == user_id
}

impl Db {
    /// Whether the user `user_id` has taken up the label `label_id`.
    pub open spec fn has_user_label(self, user_id: i32, label_id: i32) -> bool {
        exists|i: int| user_label_at(self.users_labels, i, user_id, label_id)
    }

    /// The row of the edge between `user_id` and `label_id`, where there is
    /// one.
    pub open spec fn user_label_index(self, user_id: i32, label_id: i32) -> int {
        choose|i: int| user_label_at(self.users_labels, i, user_id, label_id)
    }

    /// Whether there is an edge with the id `id`.
    pub open spec fn has_user_label_id(self, id: i32) -> bool {
        exists|i: int| user_label_id_at(self.users_labels, i, id)
    }

    /// The row of the edge with the id `id`, where there is one.
    pub open spec fn user_label_id_index(self, id: i32) -> int {
        choose|i: int| user_label_id_at(self.users_labels, i, id)
    }

    /// The edges of `user_id`, oldest first.
    pub open spec fn users_labels_all(self, user_id: i32) -> Seq<UserLabel> {
        self.users_labels.filter(edge_of(user_id))
    }

    /// The edge with the id `id`, where it is an edge of `user_id`.
    pub open spec fn users_labels_get(self, id: i32, user_id: i32) -> Result<UserLabel, ApiError> {
        if self.has_user_label_id(id) && self.users_labels[self.user_label_id_index(id)].user_id
            == user_id {
            Ok(self.users_labels[self.user_label_id_index(id)])
        } else {
            Err(ApiError::NotFound)
        }
    }

    /// Taking up the label `label_id` for `user_id`: the store afterwards
    /// and the answer. The label must belong to `user_id`, else nothing is
    /// found; a pair that is there already is a conflict, and so is an id
    /// that cannot be handed out.
    pub open spec fn users_labels_new(self, user_id: i32, label_id: i32) -> (
        Db,
        Result<UserLabel, ApiError>,
    ) {
        if !self.has_label(label_id, user_id) {
            (self, Err(ApiError::NotFound))
        } else if self.has_user_label(user_id, label_id) || self.next_user_label == i32::MAX {
            (self, Err(ApiError::Conflict))
        } else {
            let edge = UserLabel { id: self.next_user_label, user_id: user_id, label_id: label_id };
            (
                Db {
                    users_labels: self.users_labels.push(edge),
                    next_user_label: (self.next_user_label + 1) as i32,
                    ..self
                },
                Ok(edge),
            )
        }
    }

    /// Giving up the label `label_id` for `user_id`: the store afterwards
    /// and the answer, which is the edge as it was. Nothing is found unless
    /// the edge is there.
    pub open spec fn users_labels_delete(self, user_id: i32, label_id: i32) -> (
        Db,
        Result<UserLabel, ApiError>,
    ) {
        if self.has_user_label(user_id, label_id) {
            let i = self.user_label_index(user_id, label_id);
            (Db { users_labels: self.users_labels.remove(i), ..self }, Ok(self.users_labels[i]))
        } else {
            (self, Err(ApiError::NotFound))
        }
    }
}

/// A pair has at most one edge.
pub proof fn lemma_user_label_index(db: Db, i: int, user_id: i32, label_id: i32)
    requires
        users_labels_wf(db.users_labels, db.next_user_label),
        user_label_at(db.users_labels, i, user_id, label_id),
    ensures
        db.has_user_label(user_id, label_id),
        db.user_label_index(user_id, label_id) == i,
{
    let k = db.user_label_index(user_id, label_id);
    assert(user_label_at(db.users_labels, k, user_id, label_id));
    if k < i {
        assert(!(db.users_labels[k].user_id == db.users_labels[i].user_id
            && db.users_labels[k].label_id == db.users_labels[i].label_id));
    } else if i < k {
        assert(!(db.users_labels[i].user_id == db.users_labels[k].user_id
            && db.users_labels[i].label_id == db.users_labels[k].label_id));
    }
}

/// An id has at most one edge.
pub proof fn lemma_user_label_id_index(db: Db, i: int, id: i32)
    requires
        users_labels_wf(db.users_labels, db.next_user_label),
        user_label_id_at(db.users_labels, i, id),
    ensures
        db.has_user_label_id(id),
        db.user_label_id_index(id) == i,
{
    let k = db.user_label_id_index(id);
    assert(user_label_id_at(db.users_labels, k, id));
    if k < i {
        assert(db.users_labels[k].id != db.users_labels[i].id);
    } else if i < k {
        assert(db.users_labels[i].id != db.users_labels[k].id);
    }
}

/// Dropping edges keeps the table's invariant, and adds no edge.
pub proof fn lemma_filter_keeps_wf(rows: Seq<UserLabel>, next: i32, keep: spec_fn(UserLabel) -> bool)
    requires
        users_labels_wf(rows, next),
    ensures
        users_labels_wf(rows.filter(keep), next),
        forall|k: int|
            0 <= k < rows.filter(keep).len() ==> rows.contains(#[trigger] rows.filter(keep)[k]),
    decreases rows.len(),
{
    reveal(Seq::filter);
    if rows.len() > 0 {
        let init = rows.drop_last();
        let last = rows.last();
        assert forall|i: int| 0 <= i < init.len() implies init[i] == rows[i] by {}
        assert(users_labels_wf(init, next));
        lemma_filter_keeps_wf(init, next, keep);
        let kept = init.filter(keep);
        assert forall|k: int| 0 <= k < kept.len() implies rows.contains(#[trigger] kept[k])
            && kept[k].id != last.id && !(kept[k].user_id == last.user_id && kept[k].label_id
            == last.label_id) by {
            assert(init.contains(kept[k]));
            let m = choose|m: int| 0 <= m < init.len() && init[m] == kept[k];
            assert(rows[m] == kept[k]);
            assert(rows[m].id != rows[rows.len() - 1].id);
        }
        if keep(last) {
            let all = kept.push(last);
            assert(rows.filter(keep) == all);
            assert(rows.contains(last)) by {
                assert(rows[rows.len() - 1] == last);
            }
            assert forall|k: int| 0 <= k < all.len() implies rows.contains(#[trigger] all[k]) by {
                if k < kept.len() {
                    assert(all[k] == kept[k]);
                }
            }
            assert forall|i: int, j: int| 0 <= i < j < all.len() implies (#[trigger] all[i]).id != (
            #[trigger] all[j]).id && !(all[i].user_id == all[j].user_id && all[i].label_id
                == all[j].label_id) by {
                assert(all[i] == kept[i]);
                if j < kept.len() {
                    assert(all[j] == kept[j]);
                }
            }
            assert forall|i: int| 0 <= i < all.len() implies 1 <= (#[trigger] all[i]).id < next by {
                if i < kept.len() {
                    assert(all[i] == kept[i]);
                } else {
                    assert(all[i] == rows[rows.len() - 1]);
                }
            }
        } else {
            assert(rows.filter(keep) == kept);
        }
    }
}

/// A new edge with the next id and a pair that no edge holds keeps the
/// table's invariant.
pub proof fn lemma_push_keeps_wf(rows: Seq<UserLabel>, next: i32, edge: UserLabel)
    requires
        users_labels_wf(rows, next),
        next < i32::MAX,
        edge.id == next,
        forall|i: int| !user_label_at(rows, i, edge.user_id, edge.label_id),
    ensures
        users_labels_wf(rows.push(edge), (next + 1) as i32),
{
    let all = rows.push(edge);
    assert forall|i: int, j: int| 0 <= i < j < all.len() implies (#[trigger] all[i]).id != (
    #[trigger] all[j]).id && !(all[i].user_id == all[j].user_id && all[i].label_id
        == all[j].label_id) by {
        assert(all[i] == rows[i]);
        if j < rows.len() {
            assert(all[j] == rows[j]);
        } else {
            assert(!user_label_at(rows, i, edge.user_id, edge.label_id));
        }
    }
    assert forall|i: int| 0 <= i < all.len() implies 1 <= (#[trigger] all[i]).id < next + 1 by {
        if i < rows.len() {
            assert(all[i] == rows[i]);
        }
    }
}

/// Taking a row out keeps the table's invariant.
pub proof fn lemma_remove_keeps_wf(rows: Seq<UserLabel>, next: i32, at: int)
    requires
        users_labels_wf(rows, next),
        0 <= at < rows.len(),
    ensures
        users_labels_wf(rows.remove(at), next),
{
    let rest = rows.remove(at);
    assert forall|i: int| 0 <= i < rest.len() implies 1 <= (#[trigger] rest[i]).id < next by {
        if i < at {
            assert(rest[i] == rows[i]);
        } else {
            assert(rest[i] == rows[i + 1]);
        }
    }
    assert forall|i: int, j: int| 0 <= i < j < rest.len() implies (#[trigger] rest[i]).id != (
    #[trigger] rest[j]).id && !(rest[i].user_id == rest[j].user_id && rest[i].label_id
        == rest[j].label_id) by {
        let a = if i < at { i } else { i + 1 };
        let b = if j < at { j } else { j + 1 };
        assert(rest[i] == rows[a]);
        assert(rest[j] == rows[b]);
        assert(rows[a].id != rows[b].id);
    }
}

/// The edges keep their labels when a label is added.
pub proof fn lemma_refer_after_label_push(
    edges: Seq<UserLabel>,
    labels: Seq<LabelWUView>,
    row: LabelWUView,
)
    requires
        users_labels_refer(edges, labels),
    ensures
        users_labels_refer(edges, labels.push(row)),
{
    assert forall|i: int| 0 <= i < edges.len() implies label_known(
        labels.push(row),
        (#[trigger] edges[i]).label_id,
    ) by {
        lemma_label_known_push(labels, row, edges[i].label_id);
    }
}

/// The edges keep their labels when a label is changed.
pub proof fn lemma_refer_after_label_update(
    edges: Seq<UserLabel>,
    labels: Seq<LabelWUView>,
    at: int,
    row: LabelWUView,
)
    requires
        users_labels_refer(edges, labels),
        0 <= at < labels.len(),
        row.id == labels[at].id,
    ensures
        users_labels_refer(edges, labels.update(at, row)),
{
    assert forall|i: int| 0 <= i < edges.len() implies label_known(
        labels.update(at, row),
        (#[trigger] edges[i]).label_id,
    ) by {
        lemma_label_known_update(labels, at, row, edges[i].label_id);
    }
}

/// The edges that are left when a label goes, with its edges, keep their
/// labels.
pub proof fn lemma_refer_after_label_remove(
    edges: Seq<UserLabel>,
    labels: Seq<LabelWUView>,
    at: int,
)
    requires
        users_labels_refer(edges, labels),
        0 <= at < labels.len(),
    ensures
        users_labels_refer(edges.filter(not_of_label(labels[at].id)), labels.remove(at)),
{
    let keep = not_of_label(labels[at].id);
    let kept = edges.filter(keep);
    assert forall|k: int| 0 <= k < kept.len() implies label_known(
        labels.remove(at),
        (#[trigger] kept[k]).label_id,
    ) by {
        edges.lemma_filter_pred(keep, k);
        assert(kept.contains(kept[k]));
        edges.lemma_filter_contains_rev(keep, kept[k]);
        let m = choose|m: int| 0 <= m < edges.len() && edges[m] == kept[k];
        assert(label_known(labels, edges[m].label_id));
        lemma_label_known_remove(labels, at, kept[k].label_id);
    }
}

/// Taking up a label keeps the store's invariant.
pub proof fn lemma_users_labels_new_keeps_wf(db: Db, user_id: i32, label_id: i32)
    requires
        db.wf(),
    ensures
        db.users_labels_new(user_id, label_id).0.wf(),
{
    let (next, res) = db.users_labels_new(user_id, label_id);
    if res is Ok {
        let edge = res->Ok_0;
        lemma_push_keeps_wf(db.users_labels, db.next_user_label, edge);
        let l = db.label_index(label_id, user_id);
        assert(label_at(db.labels, l, label_id, user_id));
        assert(label_id_at(db.labels, l, label_id));
        let all = db.users_labels.push(edge);
        assert forall|i: int| 0 <= i < all.len() implies label_known(
            db.labels,
            (#[trigger] all[i]).label_id,
        ) by {
            if i < db.users_labels.len() {
                assert(all[i] == db.users_labels[i]);
            }
        }
    }
}

/// Giving up a label keeps the store's invariant.
pub proof fn lemma_users_labels_delete_keeps_wf(db: Db, user_id: i32, label_id: i32)
    requires
        db.wf(),
    ensures
        db.users_labels_delete(user_id, label_id).0.wf(),
{
    let (next, res) = db.users_labels_delete(user_id, label_id);
    if res is Ok {
        let at = db.user_label_index(user_id, label_id);
        assert(user_label_at(db.users_labels, at, user_id, label_id));
        lemma_remove_keeps_wf(db.users_labels, db.next_user_label, at);
        let rest = db.users_labels.remove(at);
        assert forall|i: int| 0 <= i < rest.len() implies label_known(
            db.labels,
            (#[trigger] rest[i]).label_id,
        ) by {
            if i < at {
                assert(rest[i] == db.users_labels[i]);
            } else {
                assert(rest[i] == db.users_labels[i + 1]);
            }
        }
    }
}

/// Looks for the row of the edge between `user_id` and `label_id`.
pub(crate) fn find_user_label(rows: &Vec<UserLabel>, user_id: i32, label_id: i32) -> (r: Option<
    usize,
>)
    ensures
        match r {
            Some(i) => user_label_at(rows@, i as int, user_id, label_id),
            None => forall|i: int| !user_label_at(rows@, i, user_id, label_id),
        },
{
    let mut i: usize = 0;
    while i < rows.len()
        invariant
            i <= rows.len(),
            forall|k: int| 0 <= k < i ==> !user_label_at(rows@, k, user_id, label_id),
        decreases rows.len() - i,
    {
        if rows[i].user_id == user_id && rows[i].label_id == label_id {
            return Some(i);
        }
        i = i + 1;
    }
    None
}

/// Looks for the row of the edge with the id `id`.
pub(crate) fn find_user_label_id(rows: &Vec<UserLabel>, id: i32) -> (r: Option<usize>)
    ensures
        match r {
            Some(i) => user_label_id_at(rows@, i as int, id),
            None => forall|i: int| !user_label_id_at(rows@, i, id),
        },
{
    let mut i: usize = 0;
    while i < rows.len()
        invariant
            i <= rows.len(),
            forall|k: int| 0 <= k < i ==> !user_label_id_at(rows@, k, id),
        decreases rows.len() - i,
    {
        if rows[i].id == id {
            return Some(i);
        }
        i = i + 1;
    }
    None
}

/// The edges of every label but `label_id`, in their order.
pub(crate) fn without_label(rows: &Vec<UserLabel>, label_id: i32) -> (r: Vec<UserLabel>)
    ensures
        r@ == rows@.filter(not_of_label(label_id)),
{
    let mut out: Vec<UserLabel> = Vec::new();
    let mut i: usize = 0;
    proof {
        assert(rows@.take(0) =~= Seq::empty());
        assert(rows@.take(0).filter(not_of_label(label_id)) =~= Seq::empty()) by {
            reveal(Seq::filter);
        }
    }
    while i < rows.len()
        invariant
            i <= rows.len(),
            out@ == rows@.take(i as int).filter(not_of_label(label_id)),
        decreases rows.len() - i,
    {
        proof {
            rows@.lemma_take_succ_push(i as int);
            rows@.take(i as int).lemma_filter_push(rows@[i as int], not_of_label(label_id));
        }
        if rows[i].label_id != label_id {
            out.push(rows[i]);
        }
        i = i + 1;
    }
    proof {
        assert(rows@.take(i as int) =~= rows@);
    }
    out
}

/// Checks the table's invariant.
pub fn users_labels_ok(rows: &Vec<UserLabel>, next: i32) -> (r: bool)
    ensures
        r == users_labels_wf(rows@, next),
{
    if next < 1 {
        return false;
    }
    let mut i: usize = 0;
    while i < rows.len()
        invariant
            i <= rows.len(),
            1 <= next,
            forall|a: int| 0 <= a < i ==> 1 <= (#[trigger] rows@[a]).id < next,
            forall|a: int, b: int|
                0 <= a < b < i ==> (#[trigger] rows@[a]).id != (#[trigger] rows@[b]).id,
            forall|a: int, b: int|
                0 <= a < b < i ==> !((#[trigger] rows@[a]).user_id == (#[trigger] rows@[b]).user_id
                    && rows@[a].label_id == rows@[b].label_id),
        decreases rows.len() - i,
    {
        if rows[i].id < 1 || rows[i].id >= next {
            assert(!(1 <= rows@[i as int].id < next));
            return false;
        }
        let mut j: usize = 0;
        while j < i
            invariant
                j <= i,
                i < rows.len(),
                forall|a: int| 0 <= a < j ==> (#[trigger] rows@[a]).id != rows@[i as int].id,
                forall|a: int|
                    0 <= a < j ==> !((#[trigger] rows@[a]).user_id == rows@[i as int].user_id
                        && rows@[a].label_id == rows@[i as int].label_id),
            decreases i - j,
        {
            if rows[j].id == rows[i].id || (rows[j].user_id == rows[i].user_id && rows[j].label_id
                == rows[i].label_id) {
                assert(rows@[j as int].id == rows@[i as int].id || (rows@[j as int].user_id
                    == rows@[i as int].user_id && rows@[j as int].label_id == rows@[i as int].label_id));
                return false;
            }
            j = j + 1;
        }
        i = i + 1;
    }
    true
}

/// Checks that every edge names a label that exists.
pub fn users_labels_refer_ok(edges: &Vec<UserLabel>, labels: &Vec<LabelWU>) -> (r: bool)
    ensures
        r == users_labels_refer(edges@, views(labels@)),
{
    let mut i: usize = 0;
    while i < edges.len()
        invariant
            i <= edges.len(),
            forall|k: int| 0 <= k < i ==> label_known(views(labels@), (#[trigger] edges@[k]).label_id),
        decreases edges.len() - i,
    {
        if !label_exists(labels, edges[i].label_id) {
            assert(!label_known(views(labels@), edges@[i as int].label_id));
            return false;
        }
        i = i + 1;
    }
    true
}

impl UserLabel {
    /// Every edge of `user_id`, oldest first.
    pub fn all(store: &Store, user_id: i32) -> (r: Vec<UserLabel>)
        ensures
            r@ == store@.users_labels_all(user_id),
    {
        let mut out: Vec<UserLabel> = Vec::new();
        let mut i: usize = 0;
        let ghost rows = store@.users_labels;
        proof {
            assert(rows.take(0) =~= Seq::empty());
            assert(rows.take(0).filter(edge_of(user_id)) =~= Seq::empty()) by {
                reveal(Seq::filter);
            }
        }
        while i < store.users_labels.len()
            invariant
                i <= store.users_labels.len(),
                rows == store@.users_labels,
                out@ == rows.take(i as int).filter(edge_of(user_id)),
            decreases store.users_labels.len() - i,
        {
            proof {
                rows.lemma_take_succ_push(i as int);
                rows.take(i as int).lemma_filter_push(rows[i as int], edge_of(user_id));
            }
            let edge = store.users_labels[i];
            if edge.user_id == user_id {
                out.push(edge);
            }
            i = i + 1;
        }
        proof {
            assert(rows.take(i as int) =~= rows);
        }
        out
    }

    /// The edge with the id `id`, where it is an edge of `user_id`.
    pub fn get(store: &Store, id: i32, user_id: i32) -> (r: Result<UserLabel, ApiError>)
        requires
            store@.wf(),
        ensures
            outcome(r) == store@.users_labels_get(id, user_id),
    {
        match find_user_label_id(&store.users_labels, id) {
            Some(i) => {
                proof {
                    lemma_user_label_id_index(store@, i as int, id);
                }
                let edge = store.users_labels[i];
                if edge.user_id == user_id {
                    Ok(edge)
                } else {
                    Err(ApiError::NotFound)
                }
            },
            None => Err(ApiError::NotFound),
        }
    }

    /// Takes up the label `label_id` for `user_id`.
    pub fn new(store: &mut Store, user_id: i32, label_id: i32) -> (r: Result<UserLabel, ApiError>)
        requires
            old(store)@.wf(),
        ensures
            final(store)@.wf(),
            (final(store)@, outcome(r)) == old(store)@.users_labels_new(user_id, label_id),
    {
        if find_label(&store.labels, label_id, user_id).is_none() {
            return Err(ApiError::NotFound);
        }
        if find_user_label(&store.users_labels, user_id, label_id).is_some() {
            return Err(ApiError::Conflict);
        }
        if store.next_user_label == i32::MAX {
            return Err(ApiError::Conflict);
        }
        let edge = UserLabel { id: store.next_user_label, user_id: user_id, label_id: label_id };
        store.users_labels.push(edge);
        store.next_user_label = edge.id + 1;
        proof {
            let spec_db = old(store)@.users_labels_new(user_id, label_id).0;
            assert(store@.users_labels =~= spec_db.users_labels);
            assert(store@ == spec_db);
            lemma_users_labels_new_keeps_wf(old(store)@, user_id, label_id);
        }
        Ok(edge)
    }

    /// Gives up the label `label_id` for `user_id`.
    pub fn delete(store: &mut Store, user_id: i32, label_id: i32) -> (r: Result<
        UserLabel,
        ApiError,
    >)
        requires
            old(store)@.wf(),
        ensures
            final(store)@.wf(),
            (final(store)@, outcome(r)) == old(store)@.users_labels_delete(user_id, label_id),
    {
        match find_user_label(&store.users_labels, user_id, label_id) {
            Some(i) => {
                proof {
                    lemma_user_label_index(store@, i as int, user_id, label_id);
                    lemma_users_labels_delete_keeps_wf(store@, user_id, label_id);
                }
                let edge = store.users_labels.remove(i);
                Ok(edge)
            },
            None => Err(ApiError::NotFound),
        }
    }
}

} // verus!
