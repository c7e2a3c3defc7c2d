//! The registry store: records and the five operations on them.
//!
//! The store is modeled as a finite map from canonical usernames to record
//! views.  Each operation is specified twice: a spec function gives the
//! result and the successor state as a pure function of the current state and
//! the inputs, and the executable method's contract ties it to that function.
//! Uniqueness of usernames is the store's invariant: at most one live record
//! per canonical username.

use vstd::prelude::*;

use crate::username::all_username_chars;
use crate::username::canon_of;
use crate::username::is_canonical;
use crate::username::len_ok;
use crate::username::lemma_canon_well_formed;
use crate::username::to_canonical;
use crate::username::username_chars_ok;
use crate::username::username_len_ok;
use crate::username::valid_username;

verus! {

/// The reasons an operation can fail.  Every failure leaves the registry
/// unchanged.
#[derive(Clone, Copy, Debug, PartialEq, Eq, Structural)]
pub enum KeyError {
    /// The canonical username is shorter than 3 or longer than 20 characters.
    InvalidUsernameLength,
    /// The raw username holds a character that is not an ASCII letter, digit,
    /// or underscore.
    InvalidUsernameCharacters,
    /// The canonical username already has a live record.
    UsernameTaken,
    /// The authorizer does not match the record's current owner.
    NotOwner,
    /// A mutating operation named a username whose slot is empty.
    NotFound,
}

impl KeyError {
    /// The human-readable description of the failure.
    pub fn message(&self) -> (s: &'static str)
        ensures
            *self == KeyError::InvalidUsernameLength ==> s@ == "Username must be 3-20 characters"@,
            *self == KeyError::InvalidUsernameCharacters ==> s@
                == "Username can only contain letters, numbers, and underscores"@,
            *self == KeyError::UsernameTaken ==> s@ == "Username already taken"@,
            *self == KeyError::NotOwner ==> s@ == "Only the owner can perform this action"@,
            *self == KeyError::NotFound ==> s@ == "No record exists for this username"@,
    {
        match self {
            KeyError::InvalidUsernameLength => "Username must be 3-20 characters",
            KeyError::InvalidUsernameCharacters => "Username can only contain letters, numbers, and underscores",
            KeyError::UsernameTaken => "Username already taken",
            KeyError::NotOwner => "Only the owner can perform this action",
            KeyError::NotFound => "No record exists for this username",
        }
    }
}

/// One live record of the registry.
#[derive(Debug)]
pub struct UserAccount {
    /// The current owner's public key.
    pub owner: [u8; 32],
    /// The canonical username, 3 to 20 ASCII letters, digits or underscores,
    /// lower-cased; immutable after registration.
    pub username: String,
    /// The time of first registration, as handed in by the caller.
    pub created_at: i64,
    /// Derivation metadata for the record's deterministic slot address.
    pub bump: u8,
    /// The owner's 32-byte encryption public key.
    pub encryption_key: [u8; 32],
}

/// The mathematical image of one record.
#[verifier::ext_equal]
pub ghost struct RecordView {
    pub owner: Seq<u8>,
    pub username: Seq<char>,
    pub created_at: i64,
    pub bump: u8,
    pub encryption_key: Seq<u8>,
}

impl View for UserAccount {
    type V = RecordView;

    open spec fn view(&self) -> RecordView {
        RecordView {
            owner: self.owner@,
            username: self.username@,
            created_at: self.created_at,
            bump: self.bump,
            encryption_key: self.encryption_key@,
        }
    }
}

/// Some record of `s` carries the canonical username `k`.
pub open spec fn has_key(s: Seq<UserAccount>, k: Seq<char>) -> bool {
    exists|i: int| 0 <= i < s.len() && (#[trigger] s[i])@.username == k
}

/// The index of the record carrying `k`; meaningful only under `has_key`.
spec fn idx_of(s: Seq<UserAccount>, k: Seq<char>) -> int {
    choose|i: int| 0 <= i < s.len() && (#[trigger] s[i])@.username == k
}

/// No two records share a canonical username.
pub open spec fn distinct_usernames(s: Seq<UserAccount>) -> bool {
    forall|i: int, j: int|
        0 <= i < j < s.len() ==> (#[trigger] s[i])@.username != (#[trigger] s[j])@.username
}

/// Every stored username is valid and already canonical.
pub open spec fn canonical_records(s: Seq<UserAccount>) -> bool {
    forall|i: int|
        0 <= i < s.len() ==> valid_username((#[trigger] s[i])@.username)
            && is_canonical(s[i]@.username)
}

/// The map a record sequence denotes: canonical username to record view.
spec fn rec_map(s: Seq<UserAccount>) -> Map<Seq<char>, RecordView> {
    Map::new(|k: Seq<char>| has_key(s, k), |k: Seq<char>| s[idx_of(s, k)]@)
}

/// Under distinctness, the record at index `i` is the one its username maps
/// to.
proof fn lemma_idx_of(s: Seq<UserAccount>, i: int)
    requires
        distinct_usernames(s),
        0 <= i < s.len(),
    ensures
        has_key(s, s[i]@.username),
        idx_of(s, s[i]@.username) == i,
        rec_map(s)[s[i]@.username] == s[i]@,
{
    let k = s[i]@.username;
    assert(has_key(s, k));
    let j = idx_of(s, k);
    assert(0 <= j < s.len() && s[j]@.username == k);
    if i < j {
        assert(s[i]@.username != s[j]@.username);
    }
    if j < i {
        assert(s[j]@.username != s[i]@.username);
    }
}

/// Appending a record with a fresh username inserts it into the denoted map.
proof fn lemma_rec_map_push(s: Seq<UserAccount>, r: UserAccount)
    requires
        distinct_usernames(s),
        !has_key(s, r@.username),
    ensures
        distinct_usernames(s.push(r)),
        rec_map(s.push(r)) == rec_map(s).insert(r@.username, r@),
{
    let t = s.push(r);
    assert forall|i: int, j: int| 0 <= i < j < t.len() implies
        (#[trigger] t[i])@.username != (#[trigger] t[j])@.username by {
        if j < s.len() {
            assert(t[i] == s[i] && t[j] == s[j]);
        } else {
            assert(t[j] == r);
            assert(t[i] == s[i]);
            assert(!(s[i]@.username == r@.username));
        }
    }
    assert forall|k: Seq<char>| #[trigger] has_key(t, k) == rec_map(s).insert(r@.username, r@).dom().contains(k) by {
        if has_key(t, k) {
            let i = choose|i: int| 0 <= i < t.len() && (#[trigger] t[i])@.username == k;
            if i < s.len() {
                assert(t[i] == s[i]);
                assert(has_key(s, k));
            } else {
                assert(t[i] == r);
            }
        }
        if k == r@.username {
            assert(t[s.len() as int] == r);
            assert(has_key(t, k));
        } else if has_key(s, k) {
            let i = choose|i: int| 0 <= i < s.len() && (#[trigger] s[i])@.username == k;
            assert(t[i] == s[i]);
            assert(has_key(t, k));
        }
    }
    assert forall|k: Seq<char>| has_key(t, k) implies #[trigger] rec_map(t)[k] == rec_map(s).insert(
        r@.username,
        r@,
    )[k] by {
        let i = idx_of(t, k);
        assert(0 <= i < t.len() && t[i]@.username == k);
        if k == r@.username {
            if i < s.len() {
                assert(t[i] == s[i]);
                assert(has_key(s, k));
            }
            assert(i == s.len());
            assert(t[i] == r);
        } else {
            assert(i < s.len());
            assert(t[i] == s[i]);
            lemma_idx_of(s, i);
            assert(rec_map(s)[k] == s[i]@);
        }
    }
    assert(rec_map(t) =~= rec_map(s).insert(r@.username, r@));
}

/// Overwriting the record at `i` with one carrying the same username updates
/// the denoted map at that username.
proof fn lemma_rec_map_update(s: Seq<UserAccount>, i: int, r: UserAccount)
    requires
        distinct_usernames(s),
        0 <= i < s.len(),
        r@.username == s[i]@.username,
    ensures
        distinct_usernames(s.update(i, r)),
        rec_map(s.update(i, r)) == rec_map(s).insert(r@.username, r@),
{
    let t = s.update(i, r);
    assert forall|a: int, b: int| 0 <= a < b < t.len() implies
        (#[trigger] t[a])@.username != (#[trigger] t[b])@.username by {
        assert(t[a]@.username == s[a]@.username);
        assert(t[b]@.username == s[b]@.username);
    }
    assert forall|k: Seq<char>| #[trigger] has_key(t, k) == has_key(s, k) by {
        if has_key(t, k) {
            let a = choose|a: int| 0 <= a < t.len() && (#[trigger] t[a])@.username == k;
            assert(s[a]@.username == k);
            assert(has_key(s, k));
        }
        if has_key(s, k) {
            let a = choose|a: int| 0 <= a < s.len() && (#[trigger] s[a])@.username == k;
            assert(t[a]@.username == k);
            assert(has_key(t, k));
        }
    }
    assert forall|k: Seq<char>| has_key(t, k) implies #[trigger] rec_map(t)[k] == rec_map(s).insert(
        r@.username,
        r@,
    )[k] by {
        let a = idx_of(t, k);
        assert(0 <= a < t.len() && t[a]@.username == k);
        lemma_idx_of(s, a);
        if k == r@.username {
            if a != i {
                assert(s[a]@.username == s[i]@.username);
                lemma_idx_of(s, i);
            }
            assert(a == i);
            assert(t[a] == r);
        } else {
            assert(a != i);
            assert(t[a] == s[a]);
            assert(rec_map(s)[k] == s[a]@);
        }
    }
    assert(rec_map(t) =~= rec_map(s).insert(r@.username, r@));
}

/// Removing the record at `i` removes its username from the denoted map.
proof fn lemma_rec_map_remove(s: Seq<UserAccount>, i: int)
    requires
        distinct_usernames(s),
        0 <= i < s.len(),
    ensures
        distinct_usernames(s.remove(i)),
        rec_map(s.remove(i)) == rec_map(s).remove(s[i]@.username),
{
    let t = s.remove(i);
    assert forall|a: int, b: int| 0 <= a < b < t.len() implies
        (#[trigger] t[a])@.username != (#[trigger] t[b])@.username by {
        let a0 = if a < i { a } else { a + 1 };
        let b0 = if b < i { b } else { b + 1 };
        assert(t[a] == s[a0]);
        assert(t[b] == s[b0]);
    }
    assert forall|k: Seq<char>| #[trigger] has_key(t, k) == (has_key(s, k) && k != s[i]@.username) by {
        if has_key(t, k) {
            let a = choose|a: int| 0 <= a < t.len() && (#[trigger] t[a])@.username == k;
            let a0 = if a < i { a } else { a + 1 };
            assert(t[a] == s[a0]);
            assert(has_key(s, k));
            if a0 < i {
                assert(s[a0]@.username != s[i]@.username);
            } else {
                assert(s[i]@.username != s[a0]@.username);
            }
        }
        if has_key(s, k) && k != s[i]@.username {
            let a = choose|a: int| 0 <= a < s.len() && (#[trigger] s[a])@.username == k;
            if a < i {
                assert(t[a] == s[a]);
                assert(has_key(t, k));
            } else {
                assert(a != i);
                assert(t[a - 1] == s[a]);
                assert(has_key(t, k));
            }
        }
    }
    assert forall|k: Seq<char>| has_key(t, k) implies #[trigger] rec_map(t)[k] == rec_map(s).remove(
        s[i]@.username,
    )[k] by {
        let a = idx_of(t, k);
        assert(0 <= a < t.len() && t[a]@.username == k);
        let a0 = if a < i { a } else { a + 1 };
        assert(t[a] == s[a0]);
        lemma_idx_of(s, a0);
        assert(rec_map(s)[k] == s[a0]@);
    }
    assert(rec_map(t) =~= rec_map(s).remove(s[i]@.username));
}

/// The record a successful registration stores.
pub open spec fn new_record(
    u: Seq<char>,
    owner: Seq<u8>,
    created_at: i64,
    bump: u8,
    encryption_key: Seq<u8>,
) -> RecordView {
    RecordView { owner, username: canon_of(u), created_at, bump, encryption_key }
}

/// What `register_username` returns, as a function of the state and the raw
/// username alone: the length bound is checked first, then the characters,
/// then whether the canonical slot is already populated.
pub open spec fn register_result(m: Map<Seq<char>, RecordView>, u: Seq<char>) -> Result<
    (),
    KeyError,
> {
    if !len_ok(u) {
        Err(KeyError::InvalidUsernameLength)
    } else if !all_username_chars(u) {
        Err(KeyError::InvalidUsernameCharacters)
    } else if m.contains_key(canon_of(u)) {
        Err(KeyError::UsernameTaken)
    } else {
        Ok(())
    }
}

/// The state `register_username` leaves behind: on success the new record
/// stands under the canonical username; any failure leaves the state as it
/// was.
pub open spec fn register_state(
    m: Map<Seq<char>, RecordView>,
    u: Seq<char>,
    owner: Seq<u8>,
    created_at: i64,
    bump: u8,
    encryption_key: Seq<u8>,
) -> Map<Seq<char>, RecordView> {
    if register_result(m, u) is Ok {
        m.insert(canon_of(u), new_record(u, owner, created_at, bump, encryption_key))
    } else {
        m
    }
}

/// What `lookup_username` returns: the record under the canonical form of
/// `u`, or absence.
pub open spec fn lookup_result(m: Map<Seq<char>, RecordView>, u: Seq<char>) -> Option<RecordView> {
    if m.contains_key(canon_of(u)) {
        Some(m[canon_of(u)])
    } else {
        None
    }
}

/// Whether a mutating operation on the slot of `u` may proceed: the slot must
/// be populated and the authorizer must equal the record's current owner.
pub open spec fn mutation_result(
    m: Map<Seq<char>, RecordView>,
    u: Seq<char>,
    authorizer: Seq<u8>,
) -> Result<(), KeyError> {
    if !m.contains_key(canon_of(u)) {
        Err(KeyError::NotFound)
    } else if m[canon_of(u)].owner != authorizer {
        Err(KeyError::NotOwner)
    } else {
        Ok(())
    }
}

/// The state `transfer_username` leaves behind: on success only the owner of
/// the record changes.
pub open spec fn transfer_state(
    m: Map<Seq<char>, RecordView>,
    u: Seq<char>,
    new_owner: Seq<u8>,
    authorizer: Seq<u8>,
) -> Map<Seq<char>, RecordView> {
    if mutation_result(m, u, authorizer) is Ok {
        m.insert(canon_of(u), RecordView { owner: new_owner, ..m[canon_of(u)] })
    } else {
        m
    }
}

/// The state `update_encryption_key` leaves behind: on success only the
/// encryption key of the record changes.
pub open spec fn update_key_state(
    m: Map<Seq<char>, RecordView>,
    u: Seq<char>,
    new_key: Seq<u8>,
    authorizer: Seq<u8>,
) -> Map<Seq<char>, RecordView> {
    if mutation_result(m, u, authorizer) is Ok {
        m.insert(canon_of(u), RecordView { encryption_key: new_key, ..m[canon_of(u)] })
    } else {
        m
    }
}

/// The state `close_account` leaves behind: on success the slot is freed.
pub open spec fn close_state(
    m: Map<Seq<char>, RecordView>,
    u: Seq<char>,
    authorizer: Seq<u8>,
) -> Map<Seq<char>, RecordView> {
    if mutation_result(m, u, authorizer) is Ok {
        m.remove(canon_of(u))
    } else {
        m
    }
}

/// The registry store.  Abstractly a finite map from canonical usernames to
/// records; concretely a sequence of records with pairwise distinct
/// usernames.
pub struct Registry {
    records: Vec<UserAccount>,
}

impl View for Registry {
    type V = Map<Seq<char>, RecordView>;

    closed spec fn view(&self) -> Map<Seq<char>, RecordView> {
        rec_map(self.records@)
    }
}

impl Registry {
    /// The store's invariant: usernames are pairwise distinct, and each is a
    /// valid username already in canonical form.
    pub closed spec fn wf(&self) -> bool {
        distinct_usernames(self.records@) && canonical_records(self.records@)
    }

    /// An empty registry: no slot is populated.
    pub fn new() -> (r: Registry)
        ensures
            r.wf(),
            r@ == Map::<Seq<char>, RecordView>::empty(),
    {
        let r = Registry { records: Vec::new() };
        proof {
            assert(r@ =~= Map::<Seq<char>, RecordView>::empty());
        }
        r
    }

    /// The store's invariant, seen through its map: every populated slot
    /// holds a record carrying exactly the slot's username, which is a valid
    /// username already in canonical form.
    pub proof fn lemma_populated_slot(&self, k: Seq<char>)
        requires
            self.wf(),
            self@.contains_key(k),
        ensures
            self@[k].username == k,
            valid_username(k),
            is_canonical(k),
    {
        let s = self.records@;
        assert(has_key(s, k));
        let i = idx_of(s, k);
        assert(0 <= i < s.len() && s[i]@.username == k);
        lemma_idx_of(s, i);
    }

    /// The index of the record under canonical username `key`, if the slot is
    /// populated.
    fn find(&self, key: &String) -> (r: Option<usize>)
        ensures
            match r {
                Some(i) => i < self.records@.len() && self.records@[i as int]@.username == key@,
                None => !has_key(self.records@, key@),
            },
    {
        let n = self.records.len();
        let mut i: usize = 0;
        while i < n
            invariant
                n == self.records@.len(),
                i <= n,
                forall|j: int| 0 <= j < i ==> (#[trigger] self.records@[j])@.username != key@,
            decreases n - i,
        {
            if self.records[i].username == *key {
                return Some(i);
            }
            i = i + 1;
        }
        None
    }

    /// Register `username` for `owner`, storing `encryption_key` and the
    /// caller-supplied registration time and slot derivation metadata.
    ///
    /// Fails with `InvalidUsernameLength` or `InvalidUsernameCharacters` when
    /// validation rejects the raw username, and with `UsernameTaken` when the
    /// canonical slot is already populated; every failure leaves the registry
    /// unchanged.
    pub fn register_username(
        &mut self,
        username: &str,
        encryption_key: [u8; 32],
        owner: [u8; 32],
        now: i64,
        bump: u8,
    ) -> (r: Result<(), KeyError>)
        requires
            old(self).wf(),
        ensures
            final(self).wf(),
            r == register_result(old(self)@, username@),
            final(self)@ == register_state(
                old(self)@,
                username@,
                owner@,
                now,
                bump,
                encryption_key@,
            ),
    {
        if !username_len_ok(username) {
            return Err(KeyError::InvalidUsernameLength);
        }
        if !username_chars_ok(username) {
            return Err(KeyError::InvalidUsernameCharacters);
        }
        let canon = to_canonical(username);
        match self.find(&canon) {
            Some(_) => Err(KeyError::UsernameTaken),
            None => {
                let account = UserAccount {
                    owner,
                    username: canon,
                    created_at: now,
                    bump,
                    encryption_key,
                };
                proof {
                    lemma_canon_well_formed(username@);
                    lemma_rec_map_push(self.records@, account);
                }
                self.records.push(account);
                Ok(())
            },
        }
    }

    /// Read the record under the canonical form of `username`, or report the
    /// slot empty.  Mutates nothing.
    pub fn lookup_username(&self, username: &str) -> (r: Option<&UserAccount>)
        requires
            self.wf(),
        ensures
            match r {
                Some(account) => lookup_result(self@, username@) == Some(account@),
                None => lookup_result(self@, username@) is None,
            },
    {
        let canon = to_canonical(username);
        match self.find(&canon) {
            Some(i) => {
                proof {
                    lemma_idx_of(self.records@, i as int);
                }
                Some(&self.records[i])
            },
            None => None,
        }
    }

    /// Set the record's owner to `new_owner`, provided `authorizer` is the
    /// current owner.  Fails with `NotFound` on an empty slot and `NotOwner`
    /// on an authorization mismatch; every failure leaves the registry
    /// unchanged.
    pub fn transfer_username(
        &mut self,
        username: &str,
        new_owner: [u8; 32],
        authorizer: [u8; 32],
    ) -> (r: Result<(), KeyError>)
        requires
            old(self).wf(),
        ensures
            final(self).wf(),
            r == mutation_result(old(self)@, username@, authorizer@),
            final(self)@ == transfer_state(old(self)@, username@, new_owner@, authorizer@),
    {
        let canon = to_canonical(username);
        match self.find(&canon) {
            None => Err(KeyError::NotFound),
            Some(i) => {
                proof {
                    lemma_idx_of(self.records@, i as int);
                }
                if !keys_equal(&self.records[i].owner, &authorizer) {
                    return Err(KeyError::NotOwner);
                }
                let account = UserAccount {
                    owner: new_owner,
                    username: self.records[i].username.clone(),
                    created_at: self.records[i].created_at,
                    bump: self.records[i].bump,
                    encryption_key: self.records[i].encryption_key,
                };
                proof {
                    lemma_rec_map_update(self.records@, i as int, account);
                }
                self.records[i] = account;
                Ok(())
            },
        }
    }

    /// Replace the record's encryption key with `new_key`, provided
    /// `authorizer` is the current owner.  Fails with `NotFound` on an empty
    /// slot and `NotOwner` on an authorization mismatch; every failure leaves
    /// the registry unchanged.
    pub fn update_encryption_key(
        &mut self,
        username: &str,
        new_encryption_key: [u8; 32],
        authorizer: [u8; 32],
    ) -> (r: Result<(), KeyError>)
        requires
            old(self).wf(),
        ensures
            final(self).wf(),
            r == mutation_result(old(self)@, username@, authorizer@),
            final(self)@ == update_key_state(old(self)@, username@, new_encryption_key@, authorizer@),
    {
        let canon = to_canonical(username);
        match self.find(&canon) {
            None => Err(KeyError::NotFound),
            Some(i) => {
                proof {
                    lemma_idx_of(self.records@, i as int);
                }
                if !keys_equal(&self.records[i].owner, &authorizer) {
                    return Err(KeyError::NotOwner);
                }
                let account = UserAccount {
                    owner: self.records[i].owner,
                    username: self.records[i].username.clone(),
                    created_at: self.records[i].created_at,
                    bump: self.records[i].bump,
                    encryption_key: new_encryption_key,
                };
                proof {
                    lemma_rec_map_update(self.records@, i as int, account);
                }
                self.records[i] = account;
                Ok(())
            },
        }
    }

    /// Destroy the record and free its slot, provided `authorizer` is the
    /// current owner; the canonical username is immediately available again.
    /// Fails with `NotFound` on an empty slot and `NotOwner` on an
    /// authorization mismatch; every failure leaves the registry unchanged.
    pub fn close_account(&mut self, username: &str, authorizer: [u8; 32]) -> (r: Result<
        (),
        KeyError,
    >)
        requires
            old(self).wf(),
        ensures
            final(self).wf(),
            r == mutation_result(old(self)@, username@, authorizer@),
            final(self)@ == close_state(old(self)@, username@, authorizer@),
    {
        let canon = to_canonical(username);
        match self.find(&canon) {
            None => Err(KeyError::NotFound),
            Some(i) => {
                proof {
                    lemma_idx_of(self.records@, i as int);
                }
                if !keys_equal(&self.records[i].owner, &authorizer) {
                    return Err(KeyError::NotOwner);
                }
                proof {
                    lemma_rec_map_remove(self.records@, i as int);
                }
                self.records.remove(i);
                Ok(())
            },
        }
    }
}

/// A registration whose canonical username is shorter than 3 or longer than
/// 20 characters fails with `InvalidUsernameLength`, whatever the state, and
/// leaves the state unchanged.
pub proof fn lemma_register_invalid_length(
    m: Map<Seq<char>, RecordView>,
    u: Seq<char>,
    owner: Seq<u8>,
    created_at: i64,
    bump: u8,
    encryption_key: Seq<u8>,
)
    requires
        !len_ok(u),
    ensures
        register_result(m, u) == Err::<(), KeyError>(KeyError::InvalidUsernameLength),
        register_state(m, u, owner, created_at, bump, encryption_key) == m,
{
}

/// A registration whose raw username holds a character outside ASCII
/// letters, digits and underscore fails with `InvalidUsernameCharacters`,
/// whatever the state, and leaves the state unchanged.  (When the length
/// bound is violated as well, the length failure is reported instead, so the
/// length bound is assumed here.)
pub proof fn lemma_register_invalid_characters(
    m: Map<Seq<char>, RecordView>,
    u: Seq<char>,
    owner: Seq<u8>,
    created_at: i64,
    bump: u8,
    encryption_key: Seq<u8>,
)
    requires
        len_ok(u),
        !all_username_chars(u),
    ensures
        register_result(m, u) == Err::<(), KeyError>(KeyError::InvalidUsernameCharacters),
        register_state(m, u, owner, created_at, bump, encryption_key) == m,
{
}

/// Failure is idempotent: a failed registration leaves the state unchanged,
/// so repeating it against the state it left behind fails identically.
pub proof fn lemma_register_failure_idempotent(
    m: Map<Seq<char>, RecordView>,
    u: Seq<char>,
    owner: Seq<u8>,
    created_at: i64,
    bump: u8,
    encryption_key: Seq<u8>,
)
    requires
        register_result(m, u) is Err,
    ensures
        register_state(m, u, owner, created_at, bump, encryption_key) == m,
        register_result(register_state(m, u, owner, created_at, bump, encryption_key), u)
            == register_result(m, u),
{
}

/// Registering a valid username makes every case variant of it taken: a
/// second registration under a username with the same canonical form fails
/// with `UsernameTaken` and changes nothing.
pub proof fn lemma_register_case_variant_taken(
    m: Map<Seq<char>, RecordView>,
    u1: Seq<char>,
    u2: Seq<char>,
    owner: Seq<u8>,
    created_at: i64,
    bump: u8,
    encryption_key: Seq<u8>,
)
    requires
        register_result(m, u1) is Ok,
        valid_username(u2),
        canon_of(u1) == canon_of(u2),
    ensures
        register_result(register_state(m, u1, owner, created_at, bump, encryption_key), u2)
            == Err::<(), KeyError>(KeyError::UsernameTaken),
{
}

/// Ownership gating: with an authorizer other than the record's owner, every
/// mutating operation fails with `NotOwner` and leaves the record — indeed
/// the whole registry — unchanged.
pub proof fn lemma_not_owner_gating(
    m: Map<Seq<char>, RecordView>,
    u: Seq<char>,
    authorizer: Seq<u8>,
    new_owner: Seq<u8>,
    new_key: Seq<u8>,
)
    requires
        m.contains_key(canon_of(u)),
        m[canon_of(u)].owner != authorizer,
    ensures
        mutation_result(m, u, authorizer) == Err::<(), KeyError>(KeyError::NotOwner),
        transfer_state(m, u, new_owner, authorizer) == m,
        update_key_state(m, u, new_key, authorizer) == m,
        close_state(m, u, authorizer) == m,
{
}

/// Round trip: after a successful registration, looking the username up —
/// under any case variant — finds exactly the record that was stored.
pub proof fn lemma_register_then_lookup(
    m: Map<Seq<char>, RecordView>,
    u1: Seq<char>,
    u2: Seq<char>,
    owner: Seq<u8>,
    created_at: i64,
    bump: u8,
    encryption_key: Seq<u8>,
)
    requires
        register_result(m, u1) is Ok,
        canon_of(u1) == canon_of(u2),
    ensures
        lookup_result(register_state(m, u1, owner, created_at, bump, encryption_key), u2)
            == Some(new_record(u1, owner, created_at, bump, encryption_key)),
{
}

/// Reclaim: closing a record frees its slot, so the same username — valid as
/// it was — registers again at once, under a fresh record.
pub proof fn lemma_close_then_register(
    m: Map<Seq<char>, RecordView>,
    u: Seq<char>,
    authorizer: Seq<u8>,
)
    requires
        valid_username(u),
        mutation_result(m, u, authorizer) is Ok,
    ensures
        register_result(close_state(m, u, authorizer), u) == Ok::<(), KeyError>(()),
{
}

/// Whether two 32-byte public keys are equal.
fn keys_equal(a: &[u8; 32], b: &[u8; 32]) -> (r: bool)
    ensures
        r == (a@ == b@),
{
    let mut i: usize = 0;
    while i < 32
        invariant
            i <= 32,
            forall|j: int| 0 <= j < i ==> a@[j] == b@[j],
        decreases 32 - i,
    {
        if a[i] != b[i] {
            return false;
        }
        i = i + 1;
    }
    proof {
        assert(a@ =~= b@);
    }
    true
}

} // verus!
