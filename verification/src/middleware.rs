//! Auth middleware: the admission decision for protected routes.
//!
//! Pure function of the authorization header bytes, the signing key and the
//! current time: either the verified subject identifier to attach to the
//! request, or one terminal rejection. A missing header, a header without a
//! bearer credential, and a malformed, mis-signed or expired token all come
//! back as the same rejection — the client learns nothing about which check
//! failed. No store is consulted: verification is local to the token.
use vstd::prelude::*;

use crate::codec::{verify, verify_spec};

verus! {

/// The middleware's terminal answer: the request is turned away before any
/// handler runs, with no sub-cause exposed.
#[derive(Clone, Copy, Debug, PartialEq, Eq, Structural)]
pub enum Rejection {
    Unauthenticated,
}

/// The ASCII bytes of `"Bearer "`, the scheme prefix of the authorization
/// header.
pub open spec fn bearer_prefix() -> Seq<u8> {
    seq![66u8, 101u8, 97u8, 114u8, 101u8, 114u8, 32u8]
}

/// Whether the header names the bearer scheme.
pub open spec fn has_bearer(h: Seq<u8>) -> bool {
    h.len() >= 7 && h.subrange(0, 7) == bearer_prefix()
}

/// The credential the header carries after the scheme prefix.
pub open spec fn header_token(h: Seq<u8>) -> Seq<u8> {
    h.subrange(7, h.len() as int)
}

/// The admission decision: the token's subject exactly when a bearer
/// credential is present and verifies under `key` at `now`; otherwise the
/// one uniform rejection.
pub open spec fn authorize_spec(key: u64, header: Option<Seq<u8>>, now: u64) -> Result<
    u128,
    Rejection,
> {
    match header {
        None => Err(Rejection::Unauthenticated),
        Some(h) => if has_bearer(h) && verify_spec(key, header_token(h), now) is Ok {
            Ok(verify_spec(key, header_token(h), now)->Ok_0)
        } else {
            Err(Rejection::Unauthenticated)
        },
    }
}

/// Decides a request: extracts the bearer credential from the header, if
/// any, verifies it, and answers the subject to attach or the rejection to
/// short-circuit with.
pub fn authorize(key: u64, header: Option<&Vec<u8>>, now: u64) -> (r: Result<u128, Rejection>)
    ensures
        r == authorize_spec(
            key,
            match header {
                Some(h) => Some(h@),
                None => None::<Seq<u8>>,
            },
            now,
        ),
{
    let h = match header {
        None => {
            return Err(Rejection::Unauthenticated);
        },
        Some(h) => h,
    };
    if h.len() < 7 {
        return Err(Rejection::Unauthenticated);
    }
    let pfx: Vec<u8> = vec![66u8, 101u8, 97u8, 114u8, 101u8, 114u8, 32u8];
    proof {
        assert(pfx@ =~= bearer_prefix());
    }
    let mut k: usize = 0;
    while k < 7
        invariant
            header matches Some(hh) && hh@ == h@,
            k <= 7,
            h@.len() >= 7,
            pfx@ == bearer_prefix(),
            pfx@.len() == 7,
            forall|m: int| 0 <= m < k ==> h@[m] == pfx@[m],
        decreases 7 - k,
    {
        if h[k] != pfx[k] {
            proof {
                assert(h@.subrange(0, 7)[k as int] == h@[k as int]);
                assert(h@.subrange(0, 7) != bearer_prefix());
            }
            return Err(Rejection::Unauthenticated);
        }
        k += 1;
    }
    proof {
        assert(h@.subrange(0, 7) =~= bearer_prefix());
    }
    let mut token: Vec<u8> = Vec::new();
    let mut i: usize = 7;
    while i < h.len()
        invariant
            header matches Some(hh) && hh@ == h@,
            7 <= i <= h@.len(),
            token@ == h@.subrange(7, i as int),
        decreases h.len() - i,
    {
        token.push(h[i]);
        i += 1;
        proof {
            assert(h@.subrange(7, i as int) =~= h@.subrange(7, i - 1 as int).push(h@[i - 1]));
        }
    }
    proof {
        assert(token@ == header_token(h@));
    }
    match verify(key, &token, now) {
        Ok(subject) => Ok(subject),
        Err(_) => Err(Rejection::Unauthenticated),
    }
}

} // verus!
