//! Auth service: registration, login, token refresh, logout, and profile
//! lookup, composing the token codec, the user store and the session
//! ledger.
//!
//! Time enters every operation as the current second; fresh random
//! identifiers come from the `uuid` wrapper. Policy choices, made explicit:
//! refresh leaves the session's expiry fixed (no sliding window), and
//! logout revokes exactly the presented session, never a user's other
//! sessions.
use vstd::prelude::*;

use crate::codec::{issue, token_spec};
use crate::ledger::{session_live, SessionLedger, SessionRecord};
use crate::store::{copy_bytes, digest_spec, hash_password, verify_password, User, UserStore};
use crate::{lower_bytes, AuthError};

verus! {

/// Relies on `uuid::Uuid::new_v4` and `Uuid::as_u128`: a freshly generated
/// random 128-bit identifier. Nothing is assumed of its value.
#[verifier::external_body]
fn fresh_id() -> u128 {
    uuid::Uuid::new_v4().as_u128()
}

/// A user as shown outward: the identity attributes with the credential
/// digest excluded.
#[derive(Debug)]
pub struct UserProfile {
    pub id: u128,
    pub name: Vec<u8>,
    pub email: Vec<u8>,
    pub created_at: u64,
    pub updated_at: u64,
}

/// What a successful login hands back: the signed access token and the
/// opaque refresh session identifier.
#[derive(Debug)]
pub struct TokenPair {
    pub access_token: Vec<u8>,
    pub session_id: u128,
}

/// The authentication service: immutable configuration (signing key and
/// the two lifetimes) plus the user store and the session ledger.
pub struct AuthService {
    pub key: u64,
    pub access_ttl: u64,
    pub session_ttl: u64,
    pub users: UserStore,
    pub sessions: SessionLedger,
}

impl AuthService {
    /// Well-formedness: the user store's uniqueness invariants hold.
    pub open spec fn wf(self) -> bool {
        self.users.wf()
    }

    /// The configuration is unchanged between two service states.
    pub open spec fn same_config(self, other: AuthService) -> bool {
        &&& self.key == other.key
        &&& self.access_ttl == other.access_ttl
        &&& self.session_ttl == other.session_ttl
    }

    /// Whether `email` (under any case spelling) names a registered user
    /// whose stored digest matches `password`. Login succeeds exactly here;
    /// an unknown email and a wrong password are indistinguishable
    /// failures.
    pub open spec fn credentials_ok(self, email: Seq<u8>, password: Seq<u8>) -> bool {
        &&& self.users.email_taken(lower_bytes(email))
        &&& self.users.user_by_email(lower_bytes(email)).password_digest == digest_spec(password)
    }

    /// A fresh service around a signing key and the two lifetimes: no
    /// users, no sessions.
    pub fn new(key: u64, access_ttl: u64, session_ttl: u64) -> (r: AuthService)
        ensures
            r.key == key,
            r.access_ttl == access_ttl,
            r.session_ttl == session_ttl,
            r.users.rows() == Seq::<User>::empty(),
            r.sessions.contents() == Map::<u128, SessionRecord>::empty(),
            r.wf(),
    {
        AuthService {
            key,
            access_ttl,
            session_ttl,
            users: UserStore::empty(),
            sessions: SessionLedger::new(),
        }
    }

    /// Registration with a caller-chosen identifier: normalizes the email,
    /// refuses a taken email (or identifier) with `Conflict`, and otherwise
    /// stores the user under the digest of the password and returns the
    /// created profile, digest excluded.
    pub fn register_with(
        &mut self,
        name: &Vec<u8>,
        email: &Vec<u8>,
        password: &Vec<u8>,
        id: u128,
        now: u64,
    ) -> (r: Result<UserProfile, AuthError>)
        requires
            old(self).wf(),
        ensures
            final(self).wf(),
            final(self).same_config(*old(self)),
            final(self).sessions == old(self).sessions,
            ({
                let norm = lower_bytes(email@);
                let rows = old(self).users.rows();
                if old(self).users.email_taken(norm) || old(self).users.id_taken(id) {
                    &&& r == Err::<UserProfile, AuthError>(AuthError::Conflict)
                    &&& final(self).users.rows() == rows
                } else {
                    &&& (r matches Ok(p) && p.id == id && p.name@ == name@ && p.email@ == norm
                        && p.created_at == now && p.updated_at == now)
                    &&& final(self).users.rows().len() == rows.len() + 1
                    &&& final(self).users.rows().subrange(0, rows.len() as int) == rows
                    &&& final(self).users.rows().last().id == id
                    &&& final(self).users.rows().last().name@ == name@
                    &&& final(self).users.rows().last().email@ == norm
                    &&& final(self).users.rows().last().password_digest == digest_spec(password@)
                    &&& final(self).users.rows().last().created_at == now
                    &&& final(self).users.rows().last().updated_at == now
                }
            }),
    {
        let digest = hash_password(password);
        match self.users.new(name, email, digest, id, now) {
            Err(e) => Err(e),
            Ok(()) => Ok(
                UserProfile {
                    id,
                    name: copy_bytes(name),
                    email: crate::to_lower(email),
                    created_at: now,
                    updated_at: now,
                },
            ),
        }
    }

    /// Registration: as `register_with`, under a freshly drawn random
    /// identifier. A taken email always answers `Conflict` with nothing
    /// changed; success adds exactly one user and returns the profile.
    pub fn register(&mut self, name: &Vec<u8>, email: &Vec<u8>, password: &Vec<u8>, now: u64) -> (r:
        Result<UserProfile, AuthError>)
        requires
            old(self).wf(),
        ensures
            final(self).wf(),
            final(self).same_config(*old(self)),
            final(self).sessions == old(self).sessions,
            old(self).users.email_taken(lower_bytes(email@)) ==> (r == Err::<
                UserProfile,
                AuthError,
            >(AuthError::Conflict) && final(self).users.rows() == old(self).users.rows()),
            r is Err ==> (r == Err::<UserProfile, AuthError>(AuthError::Conflict)
                && final(self).users.rows() == old(self).users.rows()),
            r matches Ok(p) ==> ({
                let norm = lower_bytes(email@);
                let rows = old(self).users.rows();
                &&& !old(self).users.email_taken(norm)
                &&& p.name@ == name@ && p.email@ == norm && p.created_at == now && p.updated_at
                    == now
                &&& final(self).users.rows().len() == rows.len() + 1
                &&& final(self).users.rows().subrange(0, rows.len() as int) == rows
                &&& final(self).users.rows().last().id == p.id
                &&& final(self).users.rows().last().name@ == name@
                &&& final(self).users.rows().last().email@ == norm
                &&& final(self).users.rows().last().password_digest == digest_spec(password@)
                &&& final(self).users.rows().last().created_at == now
                &&& final(self).users.rows().last().updated_at == now
            }),
    {
        let id = fresh_id();
        self.register_with(name, email, password, id, now)
    }

    /// Login with a caller-chosen session identifier: on matching
    /// credentials, issues an access token for the user and opens the
    /// session in the ledger until `now + session_ttl`; otherwise answers
    /// `InvalidCredentials` — the same value for an unknown email as for a
    /// wrong password — and changes nothing.
    pub fn login_with(&mut self, email: &Vec<u8>, password: &Vec<u8>, sid: u128, now: u64) -> (r:
        Result<TokenPair, AuthError>)
        requires
            old(self).wf(),
            now + old(self).access_ttl <= u64::MAX,
            now + old(self).session_ttl <= u64::MAX,
        ensures
            final(self).wf(),
            final(self).same_config(*old(self)),
            final(self).users == old(self).users,
            if old(self).credentials_ok(email@, password@) {
                let subject = old(self).users.user_by_email(lower_bytes(email@)).id;
                &&& (r matches Ok(p) && p.session_id == sid && p.access_token@ == token_spec(
                    old(self).key,
                    subject,
                    now,
                    (now + old(self).access_ttl) as u64,
                ))
                &&& final(self).sessions.contents() == old(self).sessions.contents().insert(
                    sid,
                    SessionRecord { subject, expires_at: (now + old(self).session_ttl) as u64 },
                )
            } else {
                &&& r == Err::<TokenPair, AuthError>(AuthError::InvalidCredentials)
                &&& final(self).sessions.contents() == old(self).sessions.contents()
            },
    {
        let found = match self.users.get_by_email(email) {
            None => None,
            Some(u) => {
                if verify_password(password, u.password_digest) {
                    Some(u.id)
                } else {
                    None
                }
            },
        };
        match found {
            None => Err(AuthError::InvalidCredentials),
            Some(subject) => {
                let token = issue(self.key, subject, now, self.access_ttl);
                self.sessions.put(sid, subject, now, self.session_ttl);
                Ok(TokenPair { access_token: token, session_id: sid })
            },
        }
    }

    /// Login: as `login_with`, under a freshly drawn random session
    /// identifier. Bad credentials of either kind answer the identical
    /// `InvalidCredentials` with nothing changed.
    pub fn login(&mut self, email: &Vec<u8>, password: &Vec<u8>, now: u64) -> (r: Result<
        TokenPair,
        AuthError,
    >)
        requires
            old(self).wf(),
            now + old(self).access_ttl <= u64::MAX,
            now + old(self).session_ttl <= u64::MAX,
        ensures
            final(self).wf(),
            final(self).same_config(*old(self)),
            final(self).users == old(self).users,
            if old(self).credentials_ok(email@, password@) {
                let subject = old(self).users.user_by_email(lower_bytes(email@)).id;
                &&& (r matches Ok(p) && p.access_token@ == token_spec(
                    old(self).key,
                    subject,
                    now,
                    (now + old(self).access_ttl) as u64,
                ))
                &&& (r matches Ok(p) ==> final(self).sessions.contents() == old(
                    self).sessions.contents().insert(
                    p.session_id,
                    SessionRecord { subject, expires_at: (now + old(self).session_ttl) as u64 },
                ))
            } else {
                &&& r == Err::<TokenPair, AuthError>(AuthError::InvalidCredentials)
                &&& final(self).sessions.contents() == old(self).sessions.contents()
            },
    {
        let sid = fresh_id();
        self.login_with(email, password, sid, now)
    }

    /// Refresh: answers a new access token for the subject bound to a live
    /// session, and `SessionInvalid` for a session that is absent, revoked
    /// or expired — indistinguishably. The session's own expiry is left
    /// fixed: refreshing does not extend it.
    pub fn refresh(&self, session_id: u128, now: u64) -> (r: Result<Vec<u8>, AuthError>)
        requires
            now + self.access_ttl <= u64::MAX,
        ensures
            ({
                let m = self.sessions.contents();
                if session_live(m, session_id, now) {
                    r matches Ok(token) && token@ == token_spec(
                        self.key,
                        m[session_id].subject,
                        now,
                        (now + self.access_ttl) as u64,
                    )
                } else {
                    r == Err::<Vec<u8>, AuthError>(AuthError::SessionInvalid)
                }
            }),
    {
        match self.sessions.get(session_id, now) {
            None => Err(AuthError::SessionInvalid),
            Some(subject) => Ok(issue(self.key, subject, now, self.access_ttl)),
        }
    }

    /// Logout: deletes exactly the presented session from the ledger.
    /// Total and idempotent — a second call, or a call on a never-issued
    /// identifier, succeeds the same way and leaves the ledger unchanged
    /// apart from that one absent key.
    pub fn logout(&mut self, session_id: u128)
        ensures
            final(self).same_config(*old(self)),
            final(self).users == old(self).users,
            final(self).sessions.contents() == old(self).sessions.contents().remove(session_id),
    {
        self.sessions.delete(session_id);
    }

    /// Profile lookup for the subject of a verified token: the stored
    /// identity, digest excluded, or `NotFound` when the subject no longer
    /// resolves (deleted after issuance — the known staleness window of
    /// stateless tokens).
    pub fn get_current_user(&self, subject_id: u128) -> (r: Result<UserProfile, AuthError>)
        requires
            self.wf(),
        ensures
            ({
                if self.users.id_taken(subject_id) {
                    let u = self.users.user_by_id(subject_id);
                    r matches Ok(p) && p.id == subject_id && p.name@ == u.name@ && p.email@
                        == u.email@ && p.created_at == u.created_at && p.updated_at == u.updated_at
                } else {
                    r == Err::<UserProfile, AuthError>(AuthError::NotFound)
                }
            }),
    {
        match self.users.get_by_id(subject_id) {
            None => Err(AuthError::NotFound),
            Some(u) => Ok(
                UserProfile {
                    id: u.id,
                    name: copy_bytes(&u.name),
                    email: copy_bytes(&u.email),
                    created_at: u.created_at,
                    updated_at: u.updated_at,
                },
            ),
        }
    }
}

/// Credential ambiguity: an unregistered email and a registered email with
/// a wrong password both fail the one credentials test, so login answers
/// both with the identical `InvalidCredentials` value and an unchanged
/// service state.
pub proof fn lemma_credential_ambiguity(
    s: AuthService,
    email_a: Seq<u8>,
    password_a: Seq<u8>,
    email_b: Seq<u8>,
    password_b: Seq<u8>,
)
    requires
        !s.users.email_taken(lower_bytes(email_a)),
        s.users.email_taken(lower_bytes(email_b)),
        s.users.user_by_email(lower_bytes(email_b)).password_digest != digest_spec(password_b),
    ensures
        !s.credentials_ok(email_a, password_a),
        !s.credentials_ok(email_b, password_b),
{
}

} // verus!
