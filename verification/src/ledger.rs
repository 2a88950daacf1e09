//! Session ledger: the revocation source of truth.
//!
//! Maps an opaque random session identifier to the subject it was opened
//! for, together with an absolute expiry second. A lookup at a time past
//! the entry's expiry behaves exactly like a lookup of an absent or deleted
//! entry: expired, revoked and never-existed are indistinguishable.
use std::collections::HashMap;
use vstd::prelude::*;

verus! {

broadcast use vstd::std_specs::hash::group_hash_axioms;

/// One refresh session: the subject it authenticates and when it lapses.
#[derive(Clone, Copy, Debug, PartialEq, Eq, Structural)]
pub struct SessionRecord {
    pub subject: u128,
    pub expires_at: u64,
}

/// Whether the session `sid` is live in contents `m` at time `now`: present
/// and not yet expired.
pub open spec fn session_live(m: Map<u128, SessionRecord>, sid: u128, now: u64) -> bool {
    m.contains_key(sid) && now < m[sid].expires_at
}

/// The ledger itself, keyed by session identifier.
pub struct SessionLedger {
    entries: HashMap<u128, SessionRecord>,
}

impl SessionLedger {
    /// The association the ledger currently holds.
    pub closed spec fn contents(self) -> Map<u128, SessionRecord> {
        self.entries@
    }

    /// An empty ledger: no session is live.
    pub fn new() -> (r: SessionLedger)
        ensures
            r.contents() == Map::<u128, SessionRecord>::empty(),
    {
        SessionLedger { entries: HashMap::new() }
    }

    /// Records `sid` as a session for `subject` until `now + ttl`,
    /// overwriting any prior entry under the same identifier.
    pub fn put(&mut self, sid: u128, subject: u128, now: u64, ttl: u64)
        requires
            now + ttl <= u64::MAX,
        ensures
            final(self).contents() == old(self).contents().insert(
                sid,
                SessionRecord { subject, expires_at: (now + ttl) as u64 },
            ),
    {
        let expires_at = now + ttl;
        self.entries.insert(sid, SessionRecord { subject, expires_at });
    }

    /// Looks `sid` up at time `now`. Returns the bound subject exactly when
    /// the session is live; absence, revocation and expiry all come back as
    /// the same `None`.
    pub fn get(&self, sid: u128, now: u64) -> (r: Option<u128>)
        ensures
            r == if session_live(self.contents(), sid, now) {
                Some(self.contents()[sid].subject)
            } else {
                None::<u128>
            },
    {
        match self.entries.get(&sid) {
            Some(rec) => {
                if now < rec.expires_at {
                    Some(rec.subject)
                } else {
                    None
                }
            },
            None => None,
        }
    }

    /// Deletes `sid`. Idempotent: deleting an absent session is not an
    /// error and leaves the ledger as it was.
    pub fn delete(&mut self, sid: u128)
        ensures
            final(self).contents() == old(self).contents().remove(sid),
    {
        self.entries.remove(&sid);
    }
}

/// Revocation: once a session identifier is deleted, it is not live at any
/// time, so a later refresh through it must fail.
pub proof fn lemma_revocation(m: Map<u128, SessionRecord>, sid: u128, now: u64)
    ensures
        !session_live(m.remove(sid), sid, now),
{
}

/// Session isolation: deleting one session identifier leaves the liveness
/// of every other session exactly as it was.
pub proof fn lemma_session_isolation(
    m: Map<u128, SessionRecord>,
    deleted: u128,
    other: u128,
    now: u64,
)
    requires
        deleted != other,
    ensures
        session_live(m.remove(deleted), other, now) == session_live(m, other, now),
{
}

/// Idempotent logout: deleting a session identifier twice leaves the ledger
/// exactly as deleting it once does, so a second logout changes nothing and
/// cannot fail.
pub proof fn lemma_idempotent_delete(m: Map<u128, SessionRecord>, sid: u128)
    ensures
        m.remove(sid).remove(sid) == m.remove(sid),
{
    assert(m.remove(sid).remove(sid) =~= m.remove(sid));
}

} // verus!
