//! User store: identity records with case-insensitively unique emails.
//!
//! Every email is normalized to ASCII lower case before it is compared or
//! stored, so two spellings that differ only in case name the same account.
//! The store also owns the credential digest: a keyed fold of the password
//! bytes that stands in for the digest capability; it is stored instead of
//! the password and never leaves the store's records in any outward view.
use vstd::prelude::*;

use crate::codec::{fold64, fold_range};
use crate::{lower_byte, lower_bytes, AuthError};

verus! {

/// Seed of the credential digest fold.
pub const DIGEST_SEED: u64 = 0x5f3759df;

/// The digest stored for a password: a keyed fold of its bytes.
pub open spec fn digest_spec(p: Seq<u8>) -> u64 {
    fold64(DIGEST_SEED, p)
}

/// Digests a password for storage.
pub fn hash_password(p: &Vec<u8>) -> (r: u64)
    ensures
        r == digest_spec(p@),
{
    let r = fold_range(DIGEST_SEED, p, 0, p.len());
    proof {
        assert(p@.subrange(0, p@.len() as int) =~= p@);
    }
    r
}

/// Checks a presented password against a stored digest.
pub fn verify_password(p: &Vec<u8>, digest: u64) -> (r: bool)
    ensures
        r == (digest_spec(p@) == digest),
{
    hash_password(p) == digest
}

/// Copies a byte string.
pub fn copy_bytes(v: &Vec<u8>) -> (r: Vec<u8>)
    ensures
        r@ == v@,
{
    let mut out: Vec<u8> = Vec::new();
    out.extend_from_slice(v.as_slice());
    proof {
        assert(out@ =~= v@);
    }
    out
}

/// Byte-wise equality of two byte strings.
pub fn bytes_eq(a: &Vec<u8>, b: &Vec<u8>) -> (r: bool)
    ensures
        r == (a@ == b@),
{
    if a.len() != b.len() {
        return false;
    }
    let mut i: usize = 0;
    while i < a.len()
        invariant
            i <= a.len(),
            a@.len() == b@.len(),
            forall|k: int| 0 <= k < i ==> a@[k] == b@[k],
        decreases a.len() - i,
    {
        if a[i] != b[i] {
            return false;
        }
        i += 1;
    }
    proof {
        assert(a@ =~= b@);
    }
    true
}

/// Lower-casing is idempotent: a normalized email is its own normal form.
pub proof fn lemma_lower_idempotent(s: Seq<u8>)
    ensures
        lower_bytes(lower_bytes(s)) == lower_bytes(s),
{
    assert forall|i: int| 0 <= i < s.len() implies lower_bytes(lower_bytes(s))[i] == lower_bytes(
        s,
    )[i] by {
        assert(lower_bytes(s)[i] == lower_byte(s[i]));
        assert(lower_bytes(lower_bytes(s))[i] == lower_byte(lower_byte(s[i])));
    }
    assert(lower_bytes(lower_bytes(s)) =~= lower_bytes(s));
}

/// One identity record. The digest never leaves the store's own records in
/// any outward view.
pub struct User {
    pub id: u128,
    pub name: Vec<u8>,
    pub email: Vec<u8>,
    pub password_digest: u64,
    pub created_at: u64,
    pub updated_at: u64,
}

/// The user store.
pub struct UserStore {
    users: Vec<User>,
}

impl UserStore {
    /// The stored rows, in insertion order.
    pub closed spec fn rows(self) -> Seq<User> {
        self.users@
    }

    /// Well-formedness: emails are stored normalized and are unique, as are
    /// identifiers.
    pub open spec fn wf(self) -> bool {
        &&& forall|i: int, j: int|
            0 <= i < j < self.rows().len() ==> self.rows()[i].email@ != self.rows()[j].email@
        &&& forall|i: int, j: int|
            0 <= i < j < self.rows().len() ==> self.rows()[i].id != self.rows()[j].id
        &&& forall|i: int|
            0 <= i < self.rows().len() ==> self.rows()[i].email@ == lower_bytes(
                #[trigger] self.rows()[i].email@,
            )
    }

    /// Whether some row holds the (already normalized) email `e`.
    pub open spec fn email_taken(self, e: Seq<u8>) -> bool {
        exists|i: int| 0 <= i < self.rows().len() && #[trigger] self.rows()[i].email@ == e
    }

    /// Whether some row holds the identifier `id`.
    pub open spec fn id_taken(self, id: u128) -> bool {
        exists|i: int| 0 <= i < self.rows().len() && #[trigger] self.rows()[i].id == id
    }

    /// The row holding the (already normalized) email `e`.
    pub open spec fn user_by_email(self, e: Seq<u8>) -> User {
        self.rows()[choose|i: int| 0 <= i < self.rows().len() && #[trigger] self.rows()[i].email@ == e]
    }

    /// The row holding the identifier `id`.
    pub open spec fn user_by_id(self, id: u128) -> User {
        self.rows()[choose|i: int| 0 <= i < self.rows().len() && #[trigger] self.rows()[i].id == id]
    }

    /// An empty store.
    pub fn empty() -> (r: UserStore)
        ensures
            r.rows() == Seq::<User>::empty(),
            r.wf(),
    {
        UserStore { users: Vec::new() }
    }

    /// Whether the email, under any spelling of its letters' case, is
    /// already registered.
    pub fn email_exists(&self, email: &Vec<u8>) -> (r: bool)
        ensures
            r == self.email_taken(lower_bytes(email@)),
    {
        let norm = crate::to_lower(email);
        let mut i: usize = 0;
        while i < self.users.len()
            invariant
                i <= self.users.len(),
                norm@ == lower_bytes(email@),
                forall|k: int| 0 <= k < i ==> self.rows()[k].email@ != norm@,
            decreases self.users.len() - i,
        {
            if bytes_eq(&self.users[i].email, &norm) {
                proof {
                    assert(self.rows()[i as int].email@ == lower_bytes(email@));
                    assert(self.email_taken(lower_bytes(email@)));
                }
                return true;
            }
            i += 1;
        }
        false
    }

    /// Looks a user up by email, under any case spelling.
    pub fn get_by_email(&self, email: &Vec<u8>) -> (r: Option<&User>)
        requires
            self.wf(),
        ensures
            match r {
                Some(u) => self.email_taken(lower_bytes(email@)) && *u == self.user_by_email(
                    lower_bytes(email@),
                ),
                None => !self.email_taken(lower_bytes(email@)),
            },
    {
        let norm = crate::to_lower(email);
        let mut i: usize = 0;
        while i < self.users.len()
            invariant
                self.wf(),
                i <= self.users.len(),
                norm@ == lower_bytes(email@),
                forall|k: int| 0 <= k < i ==> self.rows()[k].email@ != norm@,
            decreases self.users.len() - i,
        {
            if bytes_eq(&self.users[i].email, &norm) {
                proof {
                    let j = choose|j: int|
                        0 <= j < self.rows().len() && #[trigger] self.rows()[j].email@ == norm@;
                    if j != i as int {
                        assert(self.rows()[j].email@ != self.rows()[i as int].email@);
                    }
                }
                return Some(&self.users[i]);
            }
            i += 1;
        }
        None
    }

    /// Looks a user up by identifier.
    pub fn get_by_id(&self, id: u128) -> (r: Option<&User>)
        requires
            self.wf(),
        ensures
            match r {
                Some(u) => self.id_taken(id) && *u == self.user_by_id(id),
                None => !self.id_taken(id),
            },
    {
        let mut i: usize = 0;
        while i < self.users.len()
            invariant
                self.wf(),
                i <= self.users.len(),
                forall|k: int| 0 <= k < i ==> self.rows()[k].id != id,
            decreases self.users.len() - i,
        {
            if self.users[i].id == id {
                proof {
                    let j = choose|j: int|
                        0 <= j < self.rows().len() && #[trigger] self.rows()[j].id == id;
                    if j != i as int {
                        assert(self.rows()[j].id != self.rows()[i as int].id);
                    }
                }
                return Some(&self.users[i]);
            }
            i += 1;
        }
        None
    }

    /// Inserts a new user under the email's normal form, refusing any email
    /// or identifier that is already taken. The store itself is the backstop
    /// for uniqueness; callers surface the refusal as `Conflict`.
    pub fn new(
        &mut self,
        name: &Vec<u8>,
        email: &Vec<u8>,
        password_digest: u64,
        id: u128,
        now: u64,
    ) -> (r: Result<(), AuthError>)
        requires
            old(self).wf(),
        ensures
            final(self).wf(),
            ({
                let norm = lower_bytes(email@);
                if old(self).email_taken(norm) || old(self).id_taken(id) {
                    &&& r == Err::<(), AuthError>(AuthError::Conflict)
                    &&& final(self).rows() == old(self).rows()
                } else {
                    &&& r == Ok::<(), AuthError>(())
                    &&& final(self).rows().len() == old(self).rows().len() + 1
                    &&& final(self).rows().subrange(0, old(self).rows().len() as int) == old(
                        self,
                    ).rows()
                    &&& final(self).rows().last().id == id
                    &&& final(self).rows().last().name@ == name@
                    &&& final(self).rows().last().email@ == norm
                    &&& final(self).rows().last().password_digest == password_digest
                    &&& final(self).rows().last().created_at == now
                    &&& final(self).rows().last().updated_at == now
                }
            }),
    {
        let norm = crate::to_lower(email);
        let mut i: usize = 0;
        while i < self.users.len()
            invariant
                *self == *old(self),
                old(self).wf(),
                i <= self.users.len(),
                norm@ == lower_bytes(email@),
                forall|k: int|
                    0 <= k < i ==> self.rows()[k].email@ != norm@ && self.rows()[k].id != id,
            decreases self.users.len() - i,
        {
            if bytes_eq(&self.users[i].email, &norm) {
                proof {
                    assert(old(self).rows()[i as int].email@ == lower_bytes(email@));
                    assert(old(self).email_taken(lower_bytes(email@)));
                }
                return Err(AuthError::Conflict);
            }
            if self.users[i].id == id {
                proof {
                    assert(old(self).rows()[i as int].id == id);
                    assert(old(self).id_taken(id));
                }
                return Err(AuthError::Conflict);
            }
            i += 1;
        }
        let mut name_copy: Vec<u8> = Vec::new();
        name_copy.extend_from_slice(name.as_slice());
        proof {
            assert(name_copy@ =~= name@);
            lemma_lower_idempotent(email@);
        }
        let ghost before = self.rows();
        proof {
            assert(forall|k: int|
                0 <= k < before.len() ==> (#[trigger] before[k]).email@ != norm@ && before[k].id
                    != id);
        }
        self.users.push(
            User {
                id,
                name: name_copy,
                email: norm,
                password_digest,
                created_at: now,
                updated_at: now,
            },
        );
        proof {
            assert(self.rows().subrange(0, before.len() as int) =~= before);
            let rows = self.rows();
            let n = before.len() as int;
            assert(forall|k: int| 0 <= k < n ==> #[trigger] rows[k] == before[k]);
            assert forall|i: int, j: int|
                0 <= i < j < rows.len() implies rows[i].email@ != rows[j].email@ by {
                if j == n {
                    assert(rows[i] == before[i]);
                    assert(rows[j].email@ == norm@);
                } else {
                    assert(rows[i] == before[i] && rows[j] == before[j]);
                }
            }
            assert forall|i: int, j: int| 0 <= i < j < rows.len() implies rows[i].id != rows[j].id
                by {
                if j == n {
                    assert(rows[i] == before[i]);
                } else {
                    assert(rows[i] == before[i] && rows[j] == before[j]);
                }
            }
            assert forall|i: int|
                0 <= i < rows.len() implies rows[i].email@ == lower_bytes(rows[i].email@) by {
                if i == n {
                    lemma_lower_idempotent(email@);
                } else {
                    assert(rows[i] == before[i]);
                }
            }
        }
        Ok(())
    }
}

/// Case-insensitive uniqueness: two spellings with the same lower-case form
/// name the same account, so once either is registered, the other's normal
/// form is taken and a second registration must end in `Conflict`.
pub proof fn lemma_case_insensitive_conflict(s: UserStore, first: Seq<u8>, second: Seq<u8>)
    requires
        lower_bytes(first) == lower_bytes(second),
        s.email_taken(lower_bytes(first)),
    ensures
        s.email_taken(lower_bytes(second)),
{
}

} // verus!
