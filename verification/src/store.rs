//! The credential store: a durable mapping from username to credential
//! record, with the two operations the lifecycle needs — lookup by username
//! and insert-if-absent.  Insertion enforces the uniqueness invariant
//! atomically, so a lookup racing an insert can never create a second record
//! for one username; callers that check first and then insert still get
//! `UsernameTaken` from the insert itself.

use vstd::prelude::*;
use crate::errors::RegisterError;

verus! {

/// A durable per-user record: stable unique id, unique username, and the
/// stored verifiable secret.
pub struct CredentialRecord {
    /// Subject identifier, assigned at creation, never reused.
    pub id: u64,
    /// The unique username.
    pub username: Vec<u8>,
    /// The stored verifiable secret the supplied password is compared against.
    pub secret: Vec<u8>,
}

/// The credential store.  `next_id` is the id the next created record gets.
pub struct CredentialStore {
    /// The records, one per username.
    pub recs: Vec<CredentialRecord>,
    /// Next subject id to assign; strictly above every assigned id.
    pub next_id: u64,
}

impl CredentialStore {
    /// Store invariant: usernames are pairwise distinct, ids are pairwise
    /// distinct, and every assigned id lies below `next_id` — so a created
    /// record's id is never reused.
    pub open spec fn wf(self) -> bool {
        &&& forall|i: int, j: int|
            0 <= i < j < self.recs@.len() ==> (#[trigger] self.recs@[i]).username@ != (
            #[trigger] self.recs@[j]).username@
        &&& forall|i: int, j: int|
            0 <= i < j < self.recs@.len() ==> (#[trigger] self.recs@[i]).id != (
            #[trigger] self.recs@[j]).id
        &&& forall|i: int| 0 <= i < self.recs@.len() ==> (#[trigger] self.recs@[i]).id < self.next_id
    }

    /// Whether a record for username `u` exists.
    pub open spec fn has_user(self, u: Seq<u8>) -> bool {
        exists|i: int| 0 <= i < self.recs@.len() && (#[trigger] self.recs@[i]).username@ == u
    }

    /// The index of the record for `u` (meaningful when `has_user(u)`).
    pub open spec fn user_idx(self, u: Seq<u8>) -> int {
        choose|i: int| 0 <= i < self.recs@.len() && (#[trigger] self.recs@[i]).username@ == u
    }

    /// The subject id recorded for `u`.
    pub open spec fn id_of(self, u: Seq<u8>) -> u64 {
        self.recs@[self.user_idx(u)].id
    }

    /// The stored secret recorded for `u`.
    pub open spec fn secret_of(self, u: Seq<u8>) -> Seq<u8> {
        self.recs@[self.user_idx(u)].secret@
    }

    /// An empty store.
    pub fn new() -> (s: Self)
        ensures
            s.wf(),
            s.recs@.len() == 0,
            s.next_id == 1,
            forall|u: Seq<u8>| !s.has_user(u),
    {
        CredentialStore { recs: Vec::new(), next_id: 1 }
    }

    /// Whether a record for `u` exists.
    pub fn contains_user(&self, u: &Vec<u8>) -> (r: bool)
        ensures
            r == self.has_user(u@),
    {
        let n = self.recs.len();
        let mut i: usize = 0;
        while i < n
            invariant
                n == self.recs@.len(),
                0 <= i <= n,
                forall|j: int| 0 <= j < i ==> (#[trigger] self.recs@[j]).username@ != u@,
            decreases n - i,
        {
            if bytes_eq(&self.recs[i].username, u) {
                return true;
            }
            i = i + 1;
        }
        proof {
            if self.has_user(u@) {
                let k = self.user_idx(u@);
                assert(self.recs@[k].username@ == u@);
            }
        }
        false
    }

    /// Look up the record for `u`.
    pub fn find_by_username(&self, u: &Vec<u8>) -> (r: Option<&CredentialRecord>)
        requires
            self.wf(),
        ensures
            match r {
                Some(rec) => self.has_user(u@) && rec.username@ == u@ && rec.id == self.id_of(u@)
                    && rec.secret@ == self.secret_of(u@),
                None => !self.has_user(u@),
            },
    {
        let n = self.recs.len();
        let mut i: usize = 0;
        while i < n
            invariant
                n == self.recs@.len(),
                0 <= i <= n,
                forall|j: int| 0 <= j < i ==> (#[trigger] self.recs@[j]).username@ != u@,
                self.wf(),
            decreases n - i,
        {
            if bytes_eq(&self.recs[i].username, u) {
                proof {
                    assert(self.recs@[i as int].username@ == u@);
                    assert(self.has_user(u@));
                    let k = self.user_idx(u@);
                    assert(0 <= k < self.recs@.len() && self.recs@[k].username@ == u@);
                    assert(k == i as int);
                }
                return Some(&self.recs[i]);
            }
            i = i + 1;
        }
        proof {
            if self.has_user(u@) {
                let k = self.user_idx(u@);
                assert(self.recs@[k].username@ == u@);
            }
        }
        None
    }

    /// Create a record for `username` unless one exists.  This is the atomic
    /// uniqueness point: whatever was checked before, the insert itself
    /// refuses a second record for a username.
    pub fn insert_if_absent(&mut self, username: Vec<u8>, secret: Vec<u8>) -> (r: Result<
        u64,
        RegisterError,
    >)
        requires
            old(self).wf(),
            old(self).next_id < u64::MAX,
        ensures
            register_post(*old(self), *final(self), username@, secret@, r),
    {
        if self.contains_user(&username) {
            return Err(RegisterError::UsernameTaken);
        }
        let ghost pre = *self;
        let id = self.next_id;
        self.next_id = id + 1;
        let rec = CredentialRecord { id, username, secret };
        self.recs.push(rec);
        proof {
            let u = pre.recs@.len() as int;
            assert(self.recs@ == pre.recs@.push(rec));
            assert(forall|i: int| 0 <= i < u ==> self.recs@[i] == pre.recs@[i]);
            assert(self.recs@[u] == rec);
            assert forall|i: int, j: int| 0 <= i < j < self.recs@.len() implies (
            #[trigger] self.recs@[i]).username@ != (#[trigger] self.recs@[j]).username@ by {
                if j < u {
                    assert(pre.recs@[i].username@ != pre.recs@[j].username@);
                } else {
                    assert(self.recs@[j].username@ == rec.username@);
                    if self.recs@[i].username@ == rec.username@ {
                        assert(pre.has_user(rec.username@));
                    }
                }
            }
            assert forall|i: int, j: int| 0 <= i < j < self.recs@.len() implies (
            #[trigger] self.recs@[i]).id != (#[trigger] self.recs@[j]).id by {
                if j < u {
                    assert(pre.recs@[i].id != pre.recs@[j].id);
                } else {
                    assert(self.recs@[j].id == pre.next_id);
                    assert(pre.recs@[i].id < pre.next_id);
                }
            }
            assert(self.wf());
            assert(self.has_user(rec.username@));
            let k = self.user_idx(rec.username@);
            assert(0 <= k < self.recs@.len() && self.recs@[k].username@ == rec.username@);
            if k < u {
                assert(pre.has_user(rec.username@));
            }
            assert(k == u);
            assert(self.id_of(rec.username@) == pre.next_id);
            assert(self.secret_of(rec.username@) == rec.secret@);
            assert forall|v: Seq<u8>| v != rec.username@ implies (#[trigger] self.has_user(v))
                == pre.has_user(v) by {
                if self.has_user(v) {
                    let m = self.user_idx(v);
                    assert(self.recs@[m].username@ == v);
                    assert(m != u);
                    assert(pre.recs@[m].username@ == v);
                    assert(pre.has_user(v));
                }
                if pre.has_user(v) {
                    let m = pre.user_idx(v);
                    assert(pre.recs@[m].username@ == v);
                    assert(self.recs@[m].username@ == v);
                    assert(self.has_user(v));
                }
            }
            assert forall|v: Seq<u8>| v != rec.username@ && pre.has_user(v) implies self.id_of(v)
                == pre.id_of(v) && self.secret_of(v) == pre.secret_of(v) by {
                let m1 = pre.user_idx(v);
                assert(pre.recs@[m1].username@ == v);
                assert(self.recs@[m1].username@ == v);
                assert(self.has_user(v));
                let m2 = self.user_idx(v);
                assert(self.recs@[m2].username@ == v);
                assert(m2 != u);
                if m1 != m2 {
                    assert(self.recs@[m1].username@ != self.recs@[m2].username@);
                }
            }
        }
        Ok(id)
    }

    /// Register a new account: look the username up, refuse a duplicate, and
    /// otherwise create the record through the atomic insert.
    pub fn register(&mut self, username: Vec<u8>, password: Vec<u8>) -> (r: Result<
        u64,
        RegisterError,
    >)
        requires
            old(self).wf(),
            old(self).next_id < u64::MAX,
            username@.len() > 0,
            password@.len() > 0,
        ensures
            register_post(*old(self), *final(self), username@, password@, r),
    {
        if self.contains_user(&username) {
            return Err(RegisterError::UsernameTaken);
        }
        self.insert_if_absent(username, password)
    }
}

/// What one registration attempt does to the store: refused as
/// `UsernameTaken` exactly when the username is taken, and otherwise creating
/// one record with the next subject id, touching nothing else.
pub open spec fn register_post(
    pre: CredentialStore,
    post: CredentialStore,
    u: Seq<u8>,
    p: Seq<u8>,
    r: Result<u64, RegisterError>,
) -> bool {
    &&& post.wf()
    &&& pre.has_user(u) ==> r == Err::<u64, RegisterError>(RegisterError::UsernameTaken) && post
        == pre
    &&& !pre.has_user(u) ==> {
        &&& r == Ok::<u64, RegisterError>(pre.next_id)
        &&& post.has_user(u)
        &&& post.id_of(u) == pre.next_id
        &&& post.secret_of(u) == p
        &&& post.next_id == pre.next_id + 1
        &&& post.recs@.len() == pre.recs@.len() + 1
    }
    &&& forall|v: Seq<u8>| v != u ==> (#[trigger] post.has_user(v)) == pre.has_user(v)
    &&& forall|v: Seq<u8>|
        v != u && pre.has_user(v) ==> (#[trigger] post.id_of(v)) == pre.id_of(v) && post.secret_of(
            v,
        ) == pre.secret_of(v)
}

/// Compare two byte strings.
pub fn bytes_eq(a: &Vec<u8>, b: &Vec<u8>) -> (r: bool)
    ensures
        r == (a@ == b@),
{
    if a.len() != b.len() {
        proof {
            if a@ == b@ {
                assert(a@.len() == b@.len());
            }
        }
        return false;
    }
    let n = a.len();
    let mut i: usize = 0;
    while i < n
        invariant
            n == a@.len() && n == b@.len(),
            0 <= i <= n,
            forall|j: int| 0 <= j < i ==> a@[j] == b@[j],
        decreases n - i,
    {
        if a[i] != b[i] {
            proof {
                if a@ == b@ {
                    assert(a@[i as int] == b@[i as int]);
                }
            }
            return false;
        }
        i = i + 1;
    }
    proof {
        assert(a@ =~= b@);
    }
    true
}

/// One attempt in a run of registrations of one username: it succeeds
/// exactly when the username was still free, and in every case the username
/// is taken afterwards.  This is the step `reg_successes` folds.
pub proof fn lemma_register_step(
    pre: CredentialStore,
    post: CredentialStore,
    u: Seq<u8>,
    p: Seq<u8>,
    r: Result<u64, RegisterError>,
)
    requires
        register_post(pre, post, u, p, r),
    ensures
        r is Ok <==> !pre.has_user(u),
        post.has_user(u),
{
}

/// Successes among `n` sequential registration attempts of one username,
/// starting from a store where the username is taken (`true`) or free
/// (`false`): by `lemma_register_step` an attempt succeeds exactly when the
/// username is free, and leaves it taken.
pub open spec fn reg_successes(taken: bool, n: nat) -> nat
    decreases n,
{
    if n == 0 {
        0
    } else if taken {
        reg_successes(true, (n - 1) as nat)
    } else {
        1 + reg_successes(true, (n - 1) as nat)
    }
}

/// Uniqueness law: among any number of registrations of one username, run in
/// whatever order the store serializes them, exactly one succeeds when the
/// username starts out free, and none when it is already taken; all others
/// are refused as `UsernameTaken`.
pub proof fn lemma_registration_uniqueness(n: nat)
    requires
        n >= 1,
    ensures
        reg_successes(false, n) == 1,
        reg_successes(true, n) == 0,
    decreases n,
{
    if n == 1 {
        assert(reg_successes(true, 0) == 0);
        assert(reg_successes(false, 1) == 1 + reg_successes(true, 0));
        assert(reg_successes(true, 1) == reg_successes(true, 0));
    } else {
        lemma_registration_uniqueness((n - 1) as nat);
        assert(reg_successes(false, n) == 1 + reg_successes(true, (n - 1) as nat));
        assert(reg_successes(true, n) == reg_successes(true, (n - 1) as nat));
    }
}

} // verus!
