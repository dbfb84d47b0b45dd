//! User records and the manually maintained email index.
//!
//! The store offers no multi-row transactions, so the `users` row set and the
//! `email_index` row set are written independently; the protocols here keep
//! them in agreement and name the partial-failure windows explicitly.

use vstd::prelude::*;

use crate::auth::generate_token;
use crate::auth::jwt_of;
use crate::collab::bcrypt_matches;
use crate::collab::dec_str;
use crate::collab::fresh_uuid;
use crate::collab::hash_password;
use crate::collab::now_millis;
use crate::collab::verify_password;
use crate::email::is_email;
use crate::email::is_valid_email;
use crate::errors::RepoError;
use crate::table::distinct_keys;
use crate::table::keyed_map_of;
use crate::table::lemma_keyed_map_of;
use crate::table::lemma_keyed_map_push;
use crate::table::lemma_keyed_map_remove;
use crate::table::lemma_keyed_map_update;

verus! {

/// A stored user row. `user_id` is the primary key; `password_hash` holds
/// the collaborator's hash, never a plaintext password.
#[derive(Debug)]
pub struct User {
    pub user_id: u128,
    pub username: String,
    pub email: String,
    pub password_hash: Option<String>,
    pub description: Option<String>,
    pub interests: Vec<String>,
    pub created_at: i64,
    pub updated_at: i64,
    pub last_login: i64,
}

/// A row of the email index: the unique email resolves to the owning user.
#[derive(Debug)]
pub struct IndexEntry {
    pub email: String,
    pub user_id: u128,
}

/// Login request payload.
#[derive(Debug)]
pub struct UserLogin {
    pub email: String,
    pub password: String,
}

/// Registration request payload.
#[derive(Debug)]
pub struct UserRegister {
    pub username: String,
    pub email: String,
    pub password: String,
}

/// Field-by-field content equality of two user rows: the same id, the same
/// text in every string field, the same timestamps. Cloned rows are
/// `same_user` as their originals.
pub open spec fn same_user(a: User, b: User) -> bool {
    &&& a.user_id == b.user_id
    &&& a.username@ == b.username@
    &&& a.email@ == b.email@
    &&& a.password_hash.deep_view() == b.password_hash.deep_view()
    &&& a.description.deep_view() == b.description.deep_view()
    &&& a.interests.deep_view() == b.interests.deep_view()
    &&& a.created_at == b.created_at
    &&& a.updated_at == b.updated_at
    &&& a.last_login == b.last_login
}

impl Clone for User {
    fn clone(&self) -> (r: Self)
        ensures
            same_user(r, *self),
    {
        let mut interests: Vec<String> = Vec::new();
        let mut i: usize = 0;
        while i < self.interests.len()
            invariant
                0 <= i <= self.interests.len(),
                interests@ =~= self.interests@.take(i as int),
            decreases self.interests.len() - i,
        {
            interests.push(self.interests[i].clone());
            i = i + 1;
        }
        proof {
            assert(interests@ =~= self.interests@);
        }
        let r = User {
            user_id: self.user_id,
            username: self.username.clone(),
            email: self.email.clone(),
            password_hash: match &self.password_hash {
                Some(h) => Some(h.clone()),
                None => None,
            },
            description: match &self.description {
                Some(d) => Some(d.clone()),
                None => None,
            },
            interests,
            created_at: self.created_at,
            updated_at: self.updated_at,
            last_login: self.last_login,
        };
        proof {
            assert(r.interests.deep_view() =~= self.interests.deep_view());
        }
        r
    }
}

/// The primary key of the `users` row set.
pub open spec fn user_key() -> spec_fn(User) -> u128 {
    |u: User| u.user_id
}

/// The primary key of the `email_index` row set.
pub open spec fn index_key() -> spec_fn(IndexEntry) -> Seq<char> {
    |e: IndexEntry| e.email@
}

/// The two row sets a user repository writes. Stands for the slice of the
/// remote store the repository owns; all protocol properties are stated over
/// its two map views.
pub struct UserStore {
    users: Vec<User>,
    index: Vec<IndexEntry>,
}

impl UserStore {
    /// The `users` row set as a map from user id to row.
    pub closed spec fn users_map(self) -> Map<u128, User> {
        keyed_map_of(self.users@, user_key())
    }

    /// The `email_index` row set as a map from email to row.
    spec fn index_rows(self) -> Map<Seq<char>, IndexEntry> {
        keyed_map_of(self.index@, index_key())
    }

    /// The `email_index` row set as a map from email to the user id it
    /// resolves to.
    pub closed spec fn index_map(self) -> Map<Seq<char>, u128> {
        Map::new(
            |k: Seq<char>| self.index_rows().contains_key(k),
            |k: Seq<char>| self.index_rows()[k].user_id,
        )
    }

    /// The `users` rows in storage order; a full scan returns exactly these.
    pub closed spec fn users_seq(self) -> Seq<User> {
        self.users@
    }

    /// Both row sets have pairwise distinct primary keys.
    pub closed spec fn wf(self) -> bool {
        &&& distinct_keys(self.users@, user_key())
        &&& distinct_keys(self.index@, index_key())
    }

    /// An empty pair of row sets.
    pub fn new() -> (r: UserStore)
        ensures
            r.wf(),
            r.users_map() == Map::<u128, User>::empty(),
            r.index_map() == Map::<Seq<char>, u128>::empty(),
            r.users_seq() == Seq::<User>::empty(),
    {
        let r = UserStore { users: Vec::new(), index: Vec::new() };
        proof {
            assert(r.index_map() =~= Map::<Seq<char>, u128>::empty());
        }
        r
    }

    fn find_user_index(&self, user_id: u128) -> (r: Option<usize>)
        ensures
            match r {
                Some(i) => i < self.users@.len() && self.users@[i as int].user_id == user_id,
                None => forall|i: int|
                    0 <= i < self.users@.len() ==> (#[trigger] self.users@[i]).user_id != user_id,
            },
    {
        let mut i: usize = 0;
        while i < self.users.len()
            invariant
                0 <= i <= self.users@.len(),
                forall|j: int| 0 <= j < i ==> (#[trigger] self.users@[j]).user_id != user_id,
            decreases self.users@.len() - i,
        {
            if self.users[i].user_id == user_id {
                return Some(i);
            }
            i = i + 1;
        }
        None
    }

    fn find_index_entry(&self, email: &str) -> (r: Option<usize>)
        ensures
            match r {
                Some(i) => i < self.index@.len() && self.index@[i as int].email@ == email@,
                None => forall|i: int|
                    0 <= i < self.index@.len() ==> (#[trigger] self.index@[i]).email@ != email@,
            },
    {
        let email_owned = email.to_owned();
        let mut i: usize = 0;
        while i < self.index.len()
            invariant
                email_owned@ == email@,
                0 <= i <= self.index@.len(),
                forall|j: int| 0 <= j < i ==> (#[trigger] self.index@[j]).email@ != email@,
            decreases self.index@.len() - i,
        {
            if self.index[i].email == email_owned {
                return Some(i);
            }
            i = i + 1;
        }
        None
    }

    /// Write a user row: an upsert keyed by `user_id`, as a single `INSERT`
    /// statement behaves.
    pub fn insert_user(&mut self, user: User)
        requires
            old(self).wf(),
        ensures
            final(self).wf(),
            final(self).users_map() == old(self).users_map().insert(user.user_id, user),
            final(self).index_map() == old(self).index_map(),
            !old(self).users_map().contains_key(user.user_id) ==> final(self).users_seq() == old(
                self,
            ).users_seq().push(user),
    {
        let ghost s0 = self.users@;
        let ghost uid = user.user_id;
        proof {
            lemma_keyed_map_of(s0, user_key());
        }
        match self.find_user_index(user.user_id) {
            Some(i) => {
                proof {
                    lemma_keyed_map_update(s0, user_key(), i as int, user);
                }
                self.users[i] = user;
                proof {
                    assert(self.users@ == s0.update(i as int, user));
                }
            },
            None => {
                proof {
                    lemma_keyed_map_push(s0, user_key(), user);
                    assert(!keyed_map_of(s0, user_key()).contains_key(uid));
                }
                self.users.push(user);
            },
        }
    }

    /// Write an email index row: an upsert keyed by `email`.
    pub fn insert_email_index(&mut self, email: &str, user_id: u128)
        requires
            old(self).wf(),
        ensures
            final(self).wf(),
            final(self).users_map() == old(self).users_map(),
            final(self).users_seq() == old(self).users_seq(),
            final(self).index_map() == old(self).index_map().insert(email@, user_id),
    {
        let ghost s0 = self.index@;
        let entry = IndexEntry { email: email.to_owned(), user_id };
        proof {
            lemma_keyed_map_of(s0, index_key());
        }
        match self.find_index_entry(email) {
            Some(i) => {
                proof {
                    lemma_keyed_map_update(s0, index_key(), i as int, entry);
                }
                self.index[i] = entry;
                proof {
                    assert(self.index@ == s0.update(i as int, entry));
                }
            },
            None => {
                proof {
                    lemma_keyed_map_push(s0, index_key(), entry);
                    assert(!keyed_map_of(s0, index_key()).contains_key(email@));
                }
                self.index.push(entry);
            },
        }
    }

    /// Delete a user row by id; reports whether a row was present.
    pub fn delete_user_row(&mut self, user_id: u128) -> (r: bool)
        requires
            old(self).wf(),
        ensures
            final(self).wf(),
            r == old(self).users_map().contains_key(user_id),
            final(self).users_map() == old(self).users_map().remove(user_id),
            final(self).index_map() == old(self).index_map(),
    {
        let ghost s0 = self.users@;
        proof {
            lemma_keyed_map_of(s0, user_key());
        }
        match self.find_user_index(user_id) {
            Some(i) => {
                proof {
                    lemma_keyed_map_remove(s0, user_key(), i as int);
                    assert(keyed_map_of(s0, user_key()).contains_key(user_id));
                }
                self.users.remove(i);
                true
            },
            None => {
                proof {
                    assert(!keyed_map_of(s0, user_key()).contains_key(user_id));
                    assert(keyed_map_of(s0, user_key()).remove(user_id) =~= keyed_map_of(
                        s0,
                        user_key(),
                    ));
                }
                false
            },
        }
    }

    /// Delete an email index row; reports whether a row was present.
    pub fn delete_index_row(&mut self, email: &str) -> (r: bool)
        requires
            old(self).wf(),
        ensures
            final(self).wf(),
            r == old(self).index_map().contains_key(email@),
            final(self).users_map() == old(self).users_map(),
            final(self).users_seq() == old(self).users_seq(),
            final(self).index_map() == old(self).index_map().remove(email@),
    {
        let ghost s0 = self.index@;
        proof {
            lemma_keyed_map_of(s0, index_key());
        }
        match self.find_index_entry(email) {
            Some(i) => {
                proof {
                    lemma_keyed_map_remove(s0, index_key(), i as int);
                    assert(keyed_map_of(s0, index_key()).contains_key(email@));
                }
                self.index.remove(i);
                true
            },
            None => {
                proof {
                    assert(!keyed_map_of(s0, index_key()).contains_key(email@));
                    assert(keyed_map_of(s0, index_key()).remove(email@) =~= keyed_map_of(
                        s0,
                        index_key(),
                    ));
                }
                false
            },
        }
    }

    /// Read a user row by id.
    pub fn select_user(&self, user_id: u128) -> (r: Option<User>)
        requires
            self.wf(),
        ensures
            match r {
                Some(u) => u.user_id == user_id && self.users_map().contains_key(user_id)
                    && same_user(u, self.users_map()[user_id]),
                None => !self.users_map().contains_key(user_id),
            },
    {
        proof {
            lemma_keyed_map_of(self.users@, user_key());
        }
        match self.find_user_index(user_id) {
            Some(i) => Some(self.users[i].clone()),
            None => None,
        }
    }

    /// Read an email index row.
    pub fn select_index(&self, email: &str) -> (r: Option<u128>)
        requires
            self.wf(),
        ensures
            r == if self.index_map().contains_key(email@) {
                Some(self.index_map()[email@])
            } else {
                Option::<u128>::None
            },
    {
        proof {
            lemma_keyed_map_of(self.index@, index_key());
        }
        match self.find_index_entry(email) {
            Some(i) => Some(self.index[i].user_id),
            None => None,
        }
    }
}


/// The transport outcome of one statement execution against the store.
#[derive(Clone, Copy, Debug, PartialEq, Eq, Structural)]
pub enum WriteOutcome {
    /// The write reached the store and took effect.
    Applied,
    /// The execution timed out; retryable.
    TimedOut,
    /// The store rejected or lost the write.
    Failed,
}

/// What looking a user up by email yields: the index row resolves the email
/// to an id, and the user row under that id is read. A dangling resolution
/// is indistinguishable from absence.
pub open spec fn email_lookup(
    users: Map<u128, User>,
    index: Map<Seq<char>, u128>,
    email: Seq<char>,
) -> Option<User> {
    if index.contains_key(email) && users.contains_key(index[email]) {
        Some(users[index[email]])
    } else {
        None
    }
}

/// Whether the email index already holds a row for `email`; creation
/// consults this before writing.
pub fn check_email_exists(store: &UserStore, email: &str) -> (r: bool)
    requires
        store.wf(),
    ensures
        r == store.index_map().contains_key(email@),
{
    store.select_index(email).is_some()
}

/// Point read of a user row by id.
pub fn get_user_by_id(store: &UserStore, user_id: u128) -> (r: Option<User>)
    requires
        store.wf(),
    ensures
        match r {
            Some(u) => u.user_id == user_id && store.users_map().contains_key(user_id)
                && same_user(u, store.users_map()[user_id]),
            None => !store.users_map().contains_key(user_id),
        },
{
    store.select_user(user_id)
}

/// Resolve `email` through the index, then read the user row it points at.
/// An orphaned index row — one pointing at a missing user — is reported as
/// "not found", never as an error.
pub fn get_user_by_email(store: &UserStore, email: &str) -> (r: Option<User>)
    requires
        store.wf(),
    ensures
        match r {
            Some(u) => email_lookup(store.users_map(), store.index_map(), email@) matches Some(v)
                && same_user(u, v),
            None => email_lookup(store.users_map(), store.index_map(), email@) is None,
        },
{
    match store.select_index(email) {
        Some(user_id) => store.select_user(user_id),
        None => None,
    }
}

/// Full scan of the users row set. Unbounded and unpaginated: it returns
/// every stored row, in storage order.
pub fn get_all_users(store: &UserStore) -> (r: Vec<User>)
    requires
        store.wf(),
    ensures
        r@.len() == store.users_seq().len(),
        forall|i: int|
            0 <= i < r@.len() ==> same_user(#[trigger] r@[i], store.users_seq()[i]),
{
    let mut out: Vec<User> = Vec::new();
    let mut i: usize = 0;
    while i < store.users.len()
        invariant
            0 <= i <= store.users@.len(),
            out@.len() == i,
            forall|j: int| 0 <= j < i ==> same_user(#[trigger] out@[j], store.users@[j]),
        decreases store.users@.len() - i,
    {
        out.push(store.users[i].clone());
        i = i + 1;
    }
    out
}

/// Create a user: validate the email, hash the password, draw a fresh id,
/// stamp the server times, consult the email index, then write the user row
/// and its index row. The returned user carries the hash, never the
/// plaintext.
///
/// The existence check and the writes are not atomic: two concurrent
/// creations for one email can both pass the check before either writes.
/// That race window is inherent to the store's missing multi-row
/// transactions; a conditional insert on the index row would close it.
pub fn create_user(store: &mut UserStore, original_user: User) -> (r: Result<User, RepoError>)
    requires
        old(store).wf(),
    ensures
        final(store).wf(),
        r matches Err(e) ==> *final(store) == *old(store) && (e == RepoError::InvalidEmail || e
            == RepoError::HashFailure || e == RepoError::EmailExists),
        r == Err::<User, RepoError>(RepoError::InvalidEmail) <==> !is_email(original_user.email@),
        r == Err::<User, RepoError>(RepoError::EmailExists) ==> old(store).index_map().contains_key(
            original_user.email@,
        ),
        is_email(original_user.email@) && old(store).index_map().contains_key(
            original_user.email@,
        ) ==> r == Err::<User, RepoError>(RepoError::EmailExists) || r == Err::<User, RepoError>(RepoError::HashFailure),
        is_email(original_user.email@) && original_user.password_hash is None ==> r == Err::<User, RepoError>(
            RepoError::HashFailure,
        ),
        is_email(original_user.email@) && !old(store).index_map().contains_key(
            original_user.email@,
        ) && original_user.password_hash is Some ==> r matches Ok(_) || r == Err::<User, RepoError>(
            RepoError::HashFailure,
        ),
        r matches Ok(u) ==> {
            &&& is_email(original_user.email@)
            &&& !old(store).index_map().contains_key(original_user.email@)
            &&& u.username == original_user.username
            &&& u.email == original_user.email
            &&& u.description == original_user.description
            &&& u.interests == original_user.interests
            &&& original_user.password_hash matches Some(p) && u.password_hash matches Some(h)
                && bcrypt_matches(p@, h@)
            &&& u.created_at == u.updated_at && u.last_login == u.created_at
            &&& final(store).users_map().contains_key(u.user_id)
            &&& same_user(final(store).users_map()[u.user_id], u)
            &&& final(store).users_map() == old(store).users_map().insert(
                u.user_id,
                final(store).users_map()[u.user_id],
            )
            &&& final(store).index_map() == old(store).index_map().insert(
                original_user.email@,
                u.user_id,
            )
        },
{
    if !is_valid_email(original_user.email.as_str()) {
        return Err(RepoError::InvalidEmail);
    }
    let mut user = original_user;
    let plain = match user.password_hash {
        Some(p) => p,
        None => {
            return Err(RepoError::HashFailure);
        },
    };
    let hashed = match hash_password(plain.as_str()) {
        Ok(h) => h,
        Err(e) => {
            return Err(e);
        },
    };
    user.password_hash = Some(hashed);
    user.user_id = fresh_uuid();
    let now = now_millis();
    user.created_at = now;
    user.updated_at = now;
    user.last_login = now;

    if check_email_exists(store, user.email.as_str()) {
        return Err(RepoError::EmailExists);
    }
    let stored = user.clone();
    let user_id = user.user_id;
    store.insert_user(stored);
    store.insert_email_index(user.email.as_str(), user_id);
    Ok(user)
}

/// The two store writes of user creation as an explicit two-step command,
/// with each statement's transport outcome injected. `user` must already
/// carry its hash and fresh id. A refused first write leaves the store
/// untouched; a refused second write leaves the named partial state: the
/// user row present but unreachable by email lookup, surfaced as
/// `IndexWriteFailed` rather than silent success.
pub fn apply_create_writes(
    store: &mut UserStore,
    user: User,
    user_write: WriteOutcome,
    index_write: WriteOutcome,
) -> (r: Result<(), RepoError>)
    requires
        old(store).wf(),
    ensures
        final(store).wf(),
        user_write == WriteOutcome::TimedOut ==> r == Err::<(), RepoError>(RepoError::ExecutionTimeout) && *final(store) == *old(store),
        user_write == WriteOutcome::Failed ==> r == Err::<(), RepoError>(RepoError::StoreUnavailable) && *final(store) == *old(store),
        user_write == WriteOutcome::Applied ==> final(store).users_map() == old(store).users_map().insert(user.user_id, user),
        user_write == WriteOutcome::Applied && index_write != WriteOutcome::Applied ==> r == Err::<(), RepoError>(
            RepoError::IndexWriteFailed,
        ) && final(store).index_map() == old(store).index_map(),
        user_write == WriteOutcome::Applied && index_write == WriteOutcome::Applied ==> r == Ok::<(), RepoError>(())
            && final(store).index_map() == old(store).index_map().insert(user.email@, user.user_id),
{
    match user_write {
        WriteOutcome::TimedOut => {
            return Err(RepoError::ExecutionTimeout);
        },
        WriteOutcome::Failed => {
            return Err(RepoError::StoreUnavailable);
        },
        WriteOutcome::Applied => {},
    }
    let user_id = user.user_id;
    let email = user.email.clone();
    store.insert_user(user);
    match index_write {
        WriteOutcome::Applied => {
            store.insert_email_index(email.as_str(), user_id);
            Ok(())
        },
        _ => Err(RepoError::IndexWriteFailed),
    }
}

/// Delete a user: resolve the email first (absence is `NotFound`), then
/// delete the user row, then the index row. User before index: a crash
/// between the two leaves an orphaned index row, which email lookups
/// tolerate.
pub fn delete_user(store: &mut UserStore, user_id: u128, email: &str) -> (r: Result<
    (),
    RepoError,
>)
    requires
        old(store).wf(),
    ensures
        final(store).wf(),
        r == Err::<(), RepoError>(RepoError::NotFound) <==> email_lookup(
            old(store).users_map(),
            old(store).index_map(),
            email@,
        ) is None,
        r matches Err(e) ==> e == RepoError::NotFound && *final(store) == *old(store),
        r matches Ok(_) ==> final(store).users_map() == old(store).users_map().remove(user_id)
            && final(store).index_map() == old(store).index_map().remove(email@),
{
    match get_user_by_email(store, email) {
        Some(_) => {
            store.delete_user_row(user_id);
            store.delete_index_row(email);
            Ok(())
        },
        None => Err(RepoError::NotFound),
    }
}

/// The two deletes of user removal with transport outcomes injected. A
/// refused first delete leaves the store untouched; a refused second delete
/// leaves the named orphan window: the index row remains, pointing at a
/// user row that is already gone.
pub fn apply_delete_writes(
    store: &mut UserStore,
    user_id: u128,
    email: &str,
    user_delete: WriteOutcome,
    index_delete: WriteOutcome,
) -> (r: Result<(), RepoError>)
    requires
        old(store).wf(),
    ensures
        final(store).wf(),
        user_delete == WriteOutcome::TimedOut ==> r == Err::<(), RepoError>(RepoError::ExecutionTimeout) && *final(store) == *old(store),
        user_delete == WriteOutcome::Failed ==> r == Err::<(), RepoError>(RepoError::StoreUnavailable) && *final(store) == *old(store),
        user_delete == WriteOutcome::Applied ==> final(store).users_map() == old(store).users_map().remove(user_id),
        user_delete == WriteOutcome::Applied && index_delete != WriteOutcome::Applied ==> r == Err::<(), RepoError>(
            RepoError::IndexWriteFailed,
        ) && final(store).index_map() == old(store).index_map(),
        user_delete == WriteOutcome::Applied && index_delete == WriteOutcome::Applied ==> r == Ok::<(), RepoError>(()) && final(store).index_map() == old(store).index_map().remove(email@),
{
    match user_delete {
        WriteOutcome::TimedOut => {
            return Err(RepoError::ExecutionTimeout);
        },
        WriteOutcome::Failed => {
            return Err(RepoError::StoreUnavailable);
        },
        WriteOutcome::Applied => {},
    }
    store.delete_user_row(user_id);
    match index_delete {
        WriteOutcome::Applied => {
            store.delete_index_row(email);
            Ok(())
        },
        _ => Err(RepoError::IndexWriteFailed),
    }
}

/// Log a user in: resolve by email, verify the password against the stored
/// hash, and issue a token through the auth collaborator. Absence of a
/// stored hash counts as invalid credentials, like a mismatch; with the
/// user found and the password verified, a token is owed, its subject the
/// user id's decimal form.
pub fn login(store: &UserStore, email: &str, password: &str) -> (r: Result<String, RepoError>)
    requires
        store.wf(),
    ensures
        r == Err::<String, RepoError>(RepoError::NotFound) <==> email_lookup(
            store.users_map(),
            store.index_map(),
            email@,
        ) is None,
        email_lookup(store.users_map(), store.index_map(), email@) matches Some(u) ==> (r
            == Err::<String, RepoError>(RepoError::InvalidCredentials) <==> (u.password_hash
            is None || !bcrypt_matches(password@, u.password_hash->0@))),
        email_lookup(store.users_map(), store.index_map(), email@) matches Some(u) ==> ((
        u.password_hash is Some && bcrypt_matches(password@, u.password_hash->0@)) ==> r is Ok),
        r matches Ok(t) ==> t@.len() > 0,
        r matches Ok(t) ==> (email_lookup(store.users_map(), store.index_map(), email@)
            matches Some(u) && u.password_hash matches Some(h) && bcrypt_matches(password@, h@)
            && (exists|exp: int| t@ == jwt_of(
            dec_str(u.user_id as nat),
            exp,
            "your_secret_key"@,
        ))),
        r matches Err(e) ==> e == RepoError::NotFound || e == RepoError::InvalidCredentials,
{
    match get_user_by_email(store, email) {
        Some(user) => {
            match &user.password_hash {
                Some(h) => {
                    if verify_password(password, h.as_str()) {
                        Ok(generate_token(user.user_id))
                    } else {
                        Err(RepoError::InvalidCredentials)
                    }
                },
                None => Err(RepoError::InvalidCredentials),
            }
        },
        None => Err(RepoError::NotFound),
    }
}

/// Registration as the API layer performs it: the payload becomes a fresh
/// candidate row (timestamps are server-set, the plaintext rides in the
/// hash slot until hashing) and goes through `create_user`.
pub fn register(store: &mut UserStore, request: UserRegister) -> (r: Result<User, RepoError>)
    requires
        old(store).wf(),
    ensures
        final(store).wf(),
        r == Err::<User, RepoError>(RepoError::InvalidEmail) <==> !is_email(request.email@),
        r matches Err(e) ==> *final(store) == *old(store) && (e == RepoError::InvalidEmail || e
            == RepoError::HashFailure || e == RepoError::EmailExists),
        r == Err::<User, RepoError>(RepoError::EmailExists) ==> old(store).index_map().contains_key(
            request.email@,
        ),
        is_email(request.email@) && !old(store).index_map().contains_key(request.email@) ==> r
            matches Ok(_) || r == Err::<User, RepoError>(RepoError::HashFailure),
        r matches Ok(u) ==> {
            &&& u.username == request.username
            &&& u.email == request.email
            &&& u.password_hash matches Some(h) && bcrypt_matches(request.password@, h@)
            &&& final(store).users_map().contains_key(u.user_id)
            &&& same_user(final(store).users_map()[u.user_id], u)
            &&& final(store).index_map() == old(store).index_map().insert(
                request.email@,
                u.user_id,
            )
        },
{
    let candidate = User {
        user_id: 0,
        username: request.username,
        email: request.email,
        password_hash: Some(request.password),
        description: None,
        interests: Vec::new(),
        created_at: 0,
        updated_at: 0,
        last_login: 0,
    };
    create_user(store, candidate)
}


/// The full scan agrees with the map view: every stored row is the map's
/// value at its own key, and every key of the map belongs to some row, so
/// scans and point lookups describe one store.
pub proof fn lemma_rows_match_map(s: UserStore)
    requires
        s.wf(),
    ensures
        forall|i: int|
            0 <= i < s.users_seq().len() ==> s.users_map().contains_key(
                (#[trigger] s.users_seq()[i]).user_id,
            ) && s.users_map()[s.users_seq()[i].user_id] == s.users_seq()[i],
        forall|id: u128|
            #[trigger] s.users_map().contains_key(id) ==> exists|i: int|
                0 <= i < s.users_seq().len() && (#[trigger] s.users_seq()[i]).user_id == id,
{
    lemma_keyed_map_of(s.users@, user_key());
}

/// Email uniqueness along the happy path: a successful creation inserts the
/// index row for its email, so the existence check that guards every later
/// creation finds it, and `create_user` then answers `EmailExists`.
pub proof fn lemma_email_uniqueness(index: Map<Seq<char>, u128>, email: Seq<char>, user_id: u128)
    ensures
        index.insert(email, user_id).contains_key(email),
{
}

/// Index agreement: after a successful creation wrote both rows, looking
/// the email up resolves through the fresh index row to the fresh user row.
pub proof fn lemma_index_agreement(users: Map<u128, User>, index: Map<Seq<char>, u128>, u: User)
    ensures
        email_lookup(users.insert(u.user_id, u), index.insert(u.email@, u.user_id), u.email@)
            == Some(u),
{
}

/// Delete completeness: once both rows of a user are removed, neither the
/// id lookup nor the email lookup finds anything.
pub proof fn lemma_delete_completeness(
    users: Map<u128, User>,
    index: Map<Seq<char>, u128>,
    user_id: u128,
    email: Seq<char>,
)
    ensures
        !users.remove(user_id).contains_key(user_id),
        email_lookup(users.remove(user_id), index.remove(email), email) is None,
{
}

/// The partial-failure window of creation: with the user row written but
/// its index row missing, the user is unreachable by email lookup.
pub proof fn lemma_unindexed_user_invisible(
    users: Map<u128, User>,
    index: Map<Seq<char>, u128>,
    u: User,
)
    requires
        !index.contains_key(u.email@),
    ensures
        email_lookup(users.insert(u.user_id, u), index, u.email@) is None,
{
}

/// The orphan window of deletion: an index row pointing at a missing user
/// is absorbed as "not found" by email lookup, never surfaced as an error.
pub proof fn lemma_orphan_index_tolerated(
    users: Map<u128, User>,
    index: Map<Seq<char>, u128>,
    email: Seq<char>,
)
    requires
        index.contains_key(email),
        !users.contains_key(index[email]),
    ensures
        email_lookup(users, index, email) is None,
{
}

} // verus!
