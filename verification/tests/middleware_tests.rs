use auth_core::codec::issue;
use auth_core::middleware::{authorize, Rejection};

const KEY: u64 = 0x0dd_ba11;

#[test]
fn missing_header_is_rejected() {
    assert_eq!(authorize(KEY, None, 0), Err(Rejection::Unauthenticated));
}

#[test]
fn non_bearer_header_is_rejected() {
    let header = b"Basic abcdef".to_vec();
    assert_eq!(authorize(KEY, Some(&header), 0), Err(Rejection::Unauthenticated));
    let short = b"Bear".to_vec();
    assert_eq!(authorize(KEY, Some(&short), 0), Err(Rejection::Unauthenticated));
}

#[test]
fn valid_bearer_token_resolves_subject() {
    let subject: u128 = 0xabcdef;
    let token = issue(KEY, subject, 50, 100);
    let mut header = b"Bearer ".to_vec();
    header.extend_from_slice(&token);
    assert_eq!(authorize(KEY, Some(&header), 60), Ok(subject));
}

#[test]
fn expired_or_garbled_tokens_are_rejected_alike() {
    let token = issue(KEY, 5, 50, 10);
    let mut header = b"Bearer ".to_vec();
    header.extend_from_slice(&token);
    // expired
    assert_eq!(authorize(KEY, Some(&header), 60), Err(Rejection::Unauthenticated));
    // garbled signature, same outward answer
    let mut bad = header.clone();
    let last = bad.len() - 1;
    bad[last] ^= 1;
    assert_eq!(authorize(KEY, Some(&bad), 55), Err(Rejection::Unauthenticated));
    // empty credential
    let empty = b"Bearer ".to_vec();
    assert_eq!(authorize(KEY, Some(&empty), 55), Err(Rejection::Unauthenticated));
}
