//! Users and their credentials.

use vstd::prelude::*;
use vstd::slice::slice_to_vec;
use vstd::string::*;
use crate::error::ApiError;
use crate::model::store::{outcome, views, Db, Store};
use crate::password::{hash_password, password_digest};

verus! {

/// A registered user: a row of the table.
#[derive(Debug)]
pub struct User {
    pub id: i32,
    pub email: String,
    /// The digest of the password, never the password.
    pub password: String,
    /// The salt that the digest was computed under.
    pub salt: Vec<u8>,
    pub created_at: u64,
    pub updated_at: u64,
    /// Whether the user has logged in.
    pub login: bool,
}

/// The content of a [`User`].
pub struct UserView {
    pub id: i32,
    pub email: Seq<char>,
    pub password: Seq<char>,
    pub salt: Seq<u8>,
    pub created_at: u64,
    pub updated_at: u64,
    pub login: bool,
}

impl View for User {
    type V = UserView;

    open spec fn view(&self) -> UserView {
        UserView {
            id: self.id,
            email: self.email@,
            password: self.password@,
            salt: self.salt@,
            created_at: self.created_at,
            updated_at: self.updated_at,
            login: self.login,
        }
    }
}

/// A user known by id alone.
#[derive(Clone, Copy, Debug, PartialEq, Eq, Structural)]
pub struct IUser {
    pub id: i32,
}

/// What a user presents to register or to log in.
#[derive(Debug)]
pub struct Credentials {
    pub email: String,
    pub password: String,
}

/// The invariant of the table: ids are positive, unique and below the id
/// handed out next, and no two users share an e-mail address.
pub open spec fn users_wf(rows: Seq<UserView>, next: i32) -> bool {
    &&& 1 <= next
    &&& forall|i: int| 0 <= i < rows.len() ==> 1 <= (#[trigger] rows[i]).id < next
    &&& forall|i: int, j: int|
        0 <= i < j < rows.len() ==> (#[trigger] rows[i]).id != (#[trigger] rows[j]).id
    &&& forall|i: int, j: int|
        0 <= i < j < rows.len() ==> (#[trigger] rows[i]).email != (#[trigger] rows[j]).email
}

/// Whether row `i` is the user `id`.
pub open spec fn user_at(rows: Seq<UserView>, i: int, id: i32) -> bool {
    0 <= i < rows.len() && rows[i].id == id
}

/// Whether row `i` is the user with the address `email`.
pub open spec fn user_email_at(rows: Seq<UserView>, i: int, email: Seq<char>) -> bool {
    0 <= i < rows.len() && rows[i].email == email
}

impl Db {
    /// Whether there is a user with the id `id`.
    pub open spec fn has_user(self, id: i32) -> bool {
        exists|i: int| user_at(self.users, i, id)
    }

    /// The row of the user `id`, where there is one.
    pub open spec fn user_index(self, id: i32) -> int {
        choose|i: int| user_at(self.users, i, id)
    }

    /// Whether there is a user with the address `email`.
    pub open spec fn has_email(self, email: Seq<char>) -> bool {
        exists|i: int| user_email_at(self.users, i, email)
    }

    /// The row of the user with the address `email`, where there is one.
    pub open spec fn email_index(self, email: Seq<char>) -> int {
        choose|i: int| user_email_at(self.users, i, email)
    }

    /// The user `id`.
    pub open spec fn users_get(self, id: i32) -> Result<UserView, ApiError> {
        if self.has_user(id) {
            Ok(self.users[self.user_index(id)])
        } else {
            Err(ApiError::NotFound)
        }
    }

    /// The user with the address `email`.
    pub open spec fn users_get_by_email(self, email: Seq<char>) -> Result<UserView, ApiError> {
        if self.has_email(email) {
            Ok(self.users[self.email_index(email)])
        } else {
            Err(ApiError::NotFound)
        }
    }

    /// Storing a new user with a digest already computed: the store
    /// afterwards and the answer. An address that is taken is a conflict,
    /// and so is an id that cannot be handed out. The user gets the next id
    /// and has not logged in.
    pub open spec fn users_insert(
        self,
        email: Seq<char>,
        digest: Seq<char>,
        salt: Seq<u8>,
        now: u64,
    ) -> (Db, Result<UserView, ApiError>) {
        if self.has_email(email) || self.next_user == i32::MAX {
            (self, Err(ApiError::Conflict))
        } else {
            let row = UserView {
                id: self.next_user,
                email: email,
                password: digest,
                salt: salt,
                created_at: now,
                updated_at: now,
                login: false,
            };
            (
                Db { users: self.users.push(row), next_user: (self.next_user + 1) as i32, ..self },
                Ok(row),
            )
        }
    }

    /// Registering a user at time `now`: the store afterwards and the
    /// answer. Where the password cannot be hashed under `salt` the request
    /// is invalid and nothing changes; otherwise the user is stored with
    /// the digest and the salt.
    pub open spec fn users_new(
        self,
        email: Seq<char>,
        password: Seq<char>,
        salt: Seq<u8>,
        now: u64,
    ) -> (Db, Result<UserView, ApiError>) {
        match password_digest(password, salt) {
            Some(digest) => self.users_insert(email, digest, salt, now),
            None => (self, Err(ApiError::Validation)),
        }
    }

    /// Setting the login flag of the user `id`: the store afterwards and the
    /// answer.
    pub open spec fn users_set_login(self, id: i32, login: bool) -> (
        Db,
        Result<UserView, ApiError>,
    ) {
        if self.has_user(id) {
            let i = self.user_index(id);
            let row = UserView { login: login, ..self.users[i] };
            (Db { users: self.users.update(i, row), ..self }, Ok(row))
        } else {
            (self, Err(ApiError::NotFound))
        }
    }
}

/// An id has at most one user.
pub proof fn lemma_user_index(db: Db, i: int, id: i32)
    requires
        users_wf(db.users, db.next_user),
        user_at(db.users, i, id),
    ensures
        db.has_user(id),
        db.user_index(id) == i,
{
    let k = db.user_index(id);
    assert(user_at(db.users, k, id));
    if k < i {
        assert(db.users[k].id != db.users[i].id);
    } else if i < k {
        assert(db.users[i].id != db.users[k].id);
    }
}

/// An address has at most one user.
pub proof fn lemma_email_index(db: Db, i: int, email: Seq<char>)
    requires
        users_wf(db.users, db.next_user),
        user_email_at(db.users, i, email),
    ensures
        db.has_email(email),
        db.email_index(email) == i,
{
    let k = db.email_index(email);
    assert(user_email_at(db.users, k, email));
    if k < i {
        assert(db.users[k].email != db.users[i].email);
    } else if i < k {
        assert(db.users[i].email != db.users[k].email);
    }
}

/// Looks for the row of the user `id`.
pub(crate) fn find_user(rows: &Vec<User>, id: i32) -> (r: Option<usize>)
    ensures
        match r {
            Some(i) => user_at(views(rows@), i as int, id),
            None => forall|i: int| !user_at(views(rows@), i, id),
        },
{
    let mut i: usize = 0;
    while i < rows.len()
        invariant
            i <= rows.len(),
            forall|k: int| 0 <= k < i ==> !user_at(views(rows@), k, id),
        decreases rows.len() - i,
    {
        if rows[i].id == id {
            return Some(i);
        }
        i = i + 1;
    }
    None
}

/// Looks for the row of the user with the address `email`.
pub(crate) fn find_email(rows: &Vec<User>, email: &String) -> (r: Option<usize>)
    ensures
        match r {
            Some(i) => user_email_at(views(rows@), i as int, email@),
            None => forall|i: int| !user_email_at(views(rows@), i, email@),
        },
{
    let mut i: usize = 0;
    while i < rows.len()
        invariant
            i <= rows.len(),
            forall|k: int| 0 <= k < i ==> !user_email_at(views(rows@), k, email@),
        decreases rows.len() - i,
    {
        if rows[i].email == *email {
            return Some(i);
        }
        i = i + 1;
    }
    None
}

/// Storing a new user keeps the store's invariant.
pub proof fn lemma_users_insert_keeps_wf(
    db: Db,
    email: Seq<char>,
    digest: Seq<char>,
    salt: Seq<u8>,
    now: u64,
)
    requires
        db.wf(),
    ensures
        db.users_insert(email, digest, salt, now).0.wf(),
{
    let next = db.users_insert(email, digest, salt, now).0;
    if !(db.has_email(email) || db.next_user == i32::MAX) {
        assert forall|i: int, j: int| 0 <= i < j < next.users.len() implies (
        #[trigger] next.users[i]).id != (#[trigger] next.users[j]).id && next.users[i].email
            != next.users[j].email by {
            assert(next.users[i] == db.users[i]);
            if j < db.users.len() {
                assert(next.users[j] == db.users[j]);
            } else {
                assert(!user_email_at(db.users, i, email));
            }
        }
        assert forall|i: int| 0 <= i < next.users.len() implies 1 <= (
        #[trigger] next.users[i]).id < next.next_user by {
            if i < db.users.len() {
                assert(next.users[i] == db.users[i]);
            }
        }
    }
}

/// Checks the table's invariant.
pub fn users_ok(rows: &Vec<User>, next: i32) -> (r: bool)
    ensures
        r == users_wf(views(rows@), next),
{
    if next < 1 {
        return false;
    }
    let ghost all = views(rows@);
    let mut i: usize = 0;
    while i < rows.len()
        invariant
            i <= rows.len(),
            1 <= next,
            all == views(rows@),
            forall|a: int| 0 <= a < i ==> 1 <= (#[trigger] all[a]).id < next,
            forall|a: int, b: int|
                0 <= a < b < i ==> (#[trigger] all[a]).id != (#[trigger] all[b]).id,
            forall|a: int, b: int|
                0 <= a < b < i ==> (#[trigger] all[a]).email != (#[trigger] all[b]).email,
        decreases rows.len() - i,
    {
        if rows[i].id < 1 || rows[i].id >= next {
            assert(!(1 <= all[i as int].id < next));
            return false;
        }
        let mut j: usize = 0;
        while j < i
            invariant
                j <= i,
                i < rows.len(),
                all == views(rows@),
                forall|a: int| 0 <= a < j ==> (#[trigger] all[a]).id != all[i as int].id,
                forall|a: int| 0 <= a < j ==> (#[trigger] all[a]).email != all[i as int].email,
            decreases i - j,
        {
            if rows[j].id == rows[i].id || rows[j].email == rows[i].email {
                assert(all[j as int].id == all[i as int].id || all[j as int].email == all[i as int].email);
                return false;
            }
            j = j + 1;
        }
        i = i + 1;
    }
    true
}

impl User {
    /// A copy of the row.
    pub fn duplicate(&self) -> (r: User)
        ensures
            r@ == self@,
    {
        User {
            id: self.id,
            email: self.email.clone(),
            password: self.password.clone(),
            salt: slice_to_vec(self.salt.as_slice()),
            created_at: self.created_at,
            updated_at: self.updated_at,
            login: self.login,
        }
    }

    /// Every user, oldest first.
    pub fn all(store: &Store) -> (r: Vec<User>)
        ensures
            views(r@) == store@.users,
    {
        let mut out: Vec<User> = Vec::new();
        let mut i: usize = 0;
        while i < store.users.len()
            invariant
                i <= store.users.len(),
                views(out@) == store@.users.take(i as int),
            decreases store.users.len() - i,
        {
            let ghost before = views(out@);
            out.push(store.users[i].duplicate());
            proof {
                assert(views(out@) =~= before.push(store.users[i as int]@));
                assert(store@.users.take(i + 1) =~= store@.users.take(i as int).push(
                    store@.users[i as int],
                ));
            }
            i = i + 1;
        }
        proof {
            assert(store@.users.take(i as int) =~= store@.users);
        }
        out
    }

    /// The user `id`.
    pub fn get(store: &Store, id: i32) -> (r: Result<User, ApiError>)
        requires
            store@.wf(),
        ensures
            outcome(r) == store@.users_get(id),
    {
        match find_user(&store.users, id) {
            Some(i) => {
                proof {
                    lemma_user_index(store@, i as int, id);
                }
                Ok(store.users[i].duplicate())
            },
            None => Err(ApiError::NotFound),
        }
    }

    /// The user with the address `email`.
    pub fn get_by_email(store: &Store, email: &str) -> (r: Result<User, ApiError>)
        requires
            store@.wf(),
        ensures
            outcome(r) == store@.users_get_by_email(email@),
    {
        let wanted = email.to_owned();
        match find_email(&store.users, &wanted) {
            Some(i) => {
                proof {
                    lemma_email_index(store@, i as int, email@);
                }
                Ok(store.users[i].duplicate())
            },
            None => Err(ApiError::NotFound),
        }
    }

    /// Stores a new user whose password digest under `salt` is `digest`.
    pub fn insert(store: &mut Store, email: String, digest: String, salt: &[u8], now: u64) -> (r:
        Result<User, ApiError>)
        requires
            old(store)@.wf(),
        ensures
            final(store)@.wf(),
            (final(store)@, outcome(r)) == old(store)@.users_insert(email@, digest@, salt@, now),
    {
        if find_email(&store.users, &email).is_some() {
            return Err(ApiError::Conflict);
        }
        if store.next_user == i32::MAX {
            return Err(ApiError::Conflict);
        }
        let id: i32 = store.next_user;
        let row = User {
            id: id,
            email: email,
            password: digest,
            salt: slice_to_vec(salt),
            created_at: now,
            updated_at: now,
            login: false,
        };
        let seen = row.duplicate();
        store.users.push(row);
        store.next_user = id + 1;
        proof {
            let spec_db = old(store)@.users_insert(email@, digest@, salt@, now).0;
            assert(store@.users =~= spec_db.users);
            assert(store@ == spec_db);
            let all = store@.users;
            let rows = old(store)@.users;
            assert forall|i: int, j: int| 0 <= i < j < all.len() implies (#[trigger] all[i]).id != (
            #[trigger] all[j]).id && all[i].email != all[j].email by {
                assert(all[i] == rows[i]);
                if j < rows.len() {
                    assert(all[j] == rows[j]);
                } else {
                    assert(!user_email_at(rows, i, email@));
                }
            }
            assert forall|i: int| 0 <= i < all.len() implies 1 <= (#[trigger] all[i]).id < id
                + 1 by {
                if i < rows.len() {
                    assert(all[i] == rows[i]);
                }
            }
        }
        Ok(seen)
    }

    /// Registers a user at time `now`: hashes the password under `salt` and
    /// stores the user with the digest.
    pub fn new(store: &mut Store, credentials: Credentials, salt: &[u8], now: u64) -> (r: Result<
        User,
        ApiError,
    >)
        requires
            old(store)@.wf(),
        ensures
            final(store)@.wf(),
            (final(store)@, outcome(r)) == old(store)@.users_new(
                credentials.email@,
                credentials.password@,
                salt@,
                now,
            ),
    {
        match hash_password(credentials.password.as_str(), salt) {
            Ok(digest) => User::insert(store, credentials.email, digest, salt, now),
            Err(_) => Err(ApiError::Validation),
        }
    }

    /// Sets the login flag of the user `id`.
    pub fn set_login(store: &mut Store, id: i32, login: bool) -> (r: Result<User, ApiError>)
        requires
            old(store)@.wf(),
        ensures
            final(store)@.wf(),
            (final(store)@, outcome(r)) == old(store)@.users_set_login(id, login),
    {
        match find_user(&store.users, id) {
            Some(i) => {
                proof {
                    lemma_user_index(store@, i as int, id);
                }
                let mut row = store.users[i].duplicate();
                row.login = login;
                let seen = row.duplicate();
                store.users.set(i, row);
                proof {
                    let spec_db = old(store)@.users_set_login(id, login).0;
                    assert(store@.users =~= spec_db.users);
                    assert(store@ == spec_db);
                }
                Ok(seen)
            },
            None => Err(ApiError::NotFound),
        }
    }
}

} // verus!
