use auth_core::codec::{issue, verify};
use auth_core::store::{hash_password, DIGEST_SEED};
use auth_core::to_lower;
use auth_core::TokenError;

const KEY: u64 = 0x1234_5678_9abc_def0;

#[test]
fn round_trip_returns_subject() {
    let subject: u128 = 0x00ff_1234_5678_9abc_def0_1122_3344_5566;
    let token = issue(KEY, subject, 1_000, 60);
    assert_eq!(verify(KEY, &token, 1_000), Ok(subject));
    assert_eq!(verify(KEY, &token, 1_059), Ok(subject));
}

#[test]
fn round_trip_small_subject() {
    let token = issue(KEY, 7, 0, 1);
    assert_eq!(verify(KEY, &token, 0), Ok(7));
}

#[test]
fn zero_ttl_is_expired_at_issue() {
    let token = issue(KEY, 42, 500, 0);
    assert_eq!(verify(KEY, &token, 500), Err(TokenError::Expired));
}

#[test]
fn expired_after_ttl_elapses() {
    let token = issue(KEY, 42, 1_000, 60);
    assert_eq!(verify(KEY, &token, 1_060), Err(TokenError::Expired));
    assert_eq!(verify(KEY, &token, 2_000), Err(TokenError::Expired));
}

#[test]
fn token_shape_is_fixed() {
    let token = issue(KEY, 0, 0, 1);
    assert_eq!(token.len(), 83);
    assert_eq!(token[66], b'.');
    // tag 65 = 0x41, then a zero subject (32 hex), a zero issue time
    // (16 hex), and expiry 1 little-endian (01 then 14 zeros).
    let payload: &[u8] = &token[..66];
    let expected = [b"41".as_slice(), &[b'0'; 32], &[b'0'; 16], b"01".as_slice(), &[b'0'; 14]]
        .concat();
    assert_eq!(payload, expected.as_slice());
}

#[test]
fn flipping_any_signature_bit_is_invalid_signature() {
    let token = issue(KEY, 99, 1_000, 60);
    for pos in 67..83 {
        for bit in 0..8 {
            let mut tampered = token.clone();
            tampered[pos] ^= 1 << bit;
            assert_eq!(
                verify(KEY, &tampered, 1_000),
                Err(TokenError::InvalidSignature),
                "signature byte {pos} bit {bit} must be rejected"
            );
        }
    }
}

#[test]
fn tampered_payload_never_verifies() {
    let token = issue(KEY, 99, 1_000, 60);
    for pos in 0..66 {
        let mut tampered = token.clone();
        tampered[pos] ^= 1;
        assert!(verify(KEY, &tampered, 1_000).is_err(), "payload byte {pos} must not verify");
    }
}

#[test]
fn wrong_key_is_invalid_signature() {
    let token = issue(KEY, 99, 1_000, 60);
    assert_eq!(verify(KEY + 1, &token, 1_000), Err(TokenError::InvalidSignature));
}

#[test]
fn malformed_tokens_are_rejected() {
    assert_eq!(verify(KEY, &Vec::new(), 0), Err(TokenError::Malformed));
    assert_eq!(verify(KEY, &vec![b'a'; 82], 0), Err(TokenError::Malformed));
    assert_eq!(verify(KEY, &vec![b'a'; 84], 0), Err(TokenError::Malformed));
    // right length, but no dot at the separator position
    assert_eq!(verify(KEY, &vec![b'a'; 83], 0), Err(TokenError::Malformed));
    // non-hex character inside the payload segment
    let mut token = issue(KEY, 99, 1_000, 60);
    token[5] = b'!';
    assert_eq!(verify(KEY, &token, 1_000), Err(TokenError::Malformed));
    // wrong purpose tag
    let mut token = issue(KEY, 99, 1_000, 60);
    token[0] = b'4';
    token[1] = b'2';
    assert_eq!(verify(KEY, &token, 1_000), Err(TokenError::Malformed));
}

#[test]
fn session_id_is_never_accepted_as_token() {
    // a 32-hex session identifier has the wrong length for a token
    let sid_hex = vec![b'a'; 32];
    assert_eq!(verify(KEY, &sid_hex, 0), Err(TokenError::Malformed));
}

#[test]
fn to_lower_normalizes_ascii() {
    assert_eq!(to_lower(&b"User@Example.com".to_vec()), b"user@example.com".to_vec());
    assert_eq!(to_lower(&b"ann@x.com".to_vec()), b"ann@x.com".to_vec());
    assert_eq!(to_lower(&b"AZ az 09 !".to_vec()), b"az az 09 !".to_vec());
}

#[test]
fn digest_of_empty_password_is_the_seed() {
    assert_eq!(hash_password(&Vec::new()), DIGEST_SEED);
}

#[test]
fn digest_folds_bytes() {
    // one step of the fold: seed * 31 + byte
    assert_eq!(hash_password(&vec![7u8]), DIGEST_SEED.wrapping_mul(31).wrapping_add(7));
    assert_ne!(hash_password(&b"pw123".to_vec()), hash_password(&b"pw124".to_vec()));
}

#[test]
fn round_trip_extreme_subjects() {
    let token = issue(KEY, u128::MAX, 1_000, 60);
    assert_eq!(verify(KEY, &token, 1_059), Ok(u128::MAX));
    let token = issue(KEY, 0, u64::MAX - 1, 1);
    assert_eq!(verify(KEY, &token, u64::MAX - 1), Ok(0));
}
