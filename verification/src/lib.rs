//! Core of a credential-based authentication backend: a signed-token codec,
//! a session ledger with per-entry expiry, a user store with
//! case-insensitively unique emails, the service that composes them for
//! registration, login, token refresh, and logout, and the middleware
//! decision that guards protected routes.
//!
//! All I/O (HTTP, clocks) stays outside: time enters every operation as a
//! plain argument, and fresh random identifiers come from a single trusted
//! wrapper around the `uuid` crate.
use vstd::prelude::*;

pub mod codec;
pub mod ledger;
pub mod middleware;
pub mod service;
pub mod store;

verus! {

/// Why a presented token is not acceptable: structurally broken, carrying a
/// signature that does not match its payload, or past its expiry.
#[derive(Clone, Copy, Debug, PartialEq, Eq, Structural)]
pub enum TokenError {
    Malformed,
    InvalidSignature,
    Expired,
}

/// Why an authentication operation failed. Login failures on an unknown
/// email and on a wrong password share the one `InvalidCredentials` variant
/// on purpose: callers must not be able to tell the two apart.
#[derive(Clone, Copy, Debug, PartialEq, Eq, Structural)]
pub enum AuthError {
    /// Registration was asked for an email that is already taken.
    Conflict,
    /// Login with an unknown email or a wrong password.
    InvalidCredentials,
    /// The presented refresh session is absent, revoked, or expired.
    SessionInvalid,
    /// The subject of a valid token no longer resolves to a user.
    NotFound,
}

/// Normalizes one ASCII byte to lower case; other bytes are unchanged.
pub open spec fn lower_byte(b: u8) -> u8 {
    if 65 <= b && b <= 90 {
        (b + 32) as u8
    } else {
        b
    }
}

/// Byte-wise ASCII lower-casing of an email: the normal form under which
/// emails are unique in the user store.
pub open spec fn lower_bytes(s: Seq<u8>) -> Seq<u8> {
    s.map_values(|b: u8| lower_byte(b))
}

/// Lower-cases an email's ASCII bytes into the store's normal form.
pub fn to_lower(s: &Vec<u8>) -> (r: Vec<u8>)
    ensures
        r@ == lower_bytes(s@),
{
    let mut out: Vec<u8> = Vec::new();
    let mut i: usize = 0;
    while i < s.len()
        invariant
            i <= s.len(),
            out@ == lower_bytes(s@.subrange(0, i as int)),
        decreases s.len() - i,
    {
        let b = s[i];
        if 65 <= b && b <= 90 {
            out.push(b + 32);
        } else {
            out.push(b);
        }
        i += 1;
        assert(s@.subrange(0, i as int) =~= s@.subrange(0, i - 1 as int).push(s@[i - 1]));
        assert(out@ =~= lower_bytes(s@.subrange(0, i as int)));
    }
    assert(s@.subrange(0, s@.len() as int) =~= s@);
    out
}

} // verus!
