use auth_core::codec::verify;
use auth_core::middleware::authorize;
use auth_core::service::AuthService;
use auth_core::AuthError;

const KEY: u64 = 0xfeed_f00d_cafe_0001;
const ACCESS_TTL: u64 = 900;
const SESSION_TTL: u64 = 86_400;

fn service() -> AuthService {
    AuthService::new(KEY, ACCESS_TTL, SESSION_TTL)
}

#[test]
fn register_then_login_succeeds() {
    let mut s = service();
    let profile = s
        .register(&b"Ann".to_vec(), &b"ann@x.com".to_vec(), &b"pw123".to_vec(), 100)
        .unwrap();
    assert_eq!(profile.name, b"Ann".to_vec());
    assert_eq!(profile.email, b"ann@x.com".to_vec());
    let pair = s.login(&b"ann@x.com".to_vec(), &b"pw123".to_vec(), 200).unwrap();
    assert_eq!(verify(KEY, &pair.access_token, 200), Ok(profile.id));
}

#[test]
fn duplicate_email_is_conflict_case_insensitively() {
    let mut s = service();
    s.register(&b"Ann".to_vec(), &b"User@Example.com".to_vec(), &b"pw1".to_vec(), 1).unwrap();
    let second = s.register(&b"Bob".to_vec(), &b"user@example.com".to_vec(), &b"pw2".to_vec(), 2);
    assert_eq!(second.unwrap_err(), AuthError::Conflict);
    let third = s.register(&b"Cay".to_vec(), &b"USER@EXAMPLE.COM".to_vec(), &b"pw3".to_vec(), 3);
    assert_eq!(third.unwrap_err(), AuthError::Conflict);
}

#[test]
fn login_stores_email_lowercased_and_accepts_any_spelling() {
    let mut s = service();
    s.register(&b"Ann".to_vec(), &b"Ann@X.Com".to_vec(), &b"pw".to_vec(), 1).unwrap();
    assert!(s.login(&b"ann@x.com".to_vec(), &b"pw".to_vec(), 2).is_ok());
    assert!(s.login(&b"ANN@X.COM".to_vec(), &b"pw".to_vec(), 3).is_ok());
}

#[test]
fn credential_ambiguity_unknown_email_and_wrong_password() {
    let mut s = service();
    s.register(&b"Ann".to_vec(), &b"ann@x.com".to_vec(), &b"right".to_vec(), 1).unwrap();
    let unknown = s.login(&b"nobody@x.com".to_vec(), &b"whatever".to_vec(), 2);
    let wrong_pw = s.login(&b"ann@x.com".to_vec(), &b"wrong".to_vec(), 2);
    assert_eq!(unknown.as_ref().unwrap_err(), &AuthError::InvalidCredentials);
    assert_eq!(wrong_pw.as_ref().unwrap_err(), &AuthError::InvalidCredentials);
    assert_eq!(unknown.unwrap_err(), wrong_pw.unwrap_err());
}

#[test]
fn refresh_answers_new_token_for_live_session() {
    let mut s = service();
    s.register(&b"Ann".to_vec(), &b"ann@x.com".to_vec(), &b"pw".to_vec(), 1).unwrap();
    let pair = s.login(&b"ann@x.com".to_vec(), &b"pw".to_vec(), 100).unwrap();
    let subject = verify(KEY, &pair.access_token, 100).unwrap();
    let token2 = s.refresh(pair.session_id, 110).unwrap();
    assert_eq!(verify(KEY, &token2, 110), Ok(subject));
}

#[test]
fn refresh_of_unknown_session_is_invalid() {
    let s = service();
    assert_eq!(s.refresh(12345, 0).unwrap_err(), AuthError::SessionInvalid);
}

#[test]
fn refresh_of_expired_session_is_invalid() {
    let mut s = service();
    s.register(&b"Ann".to_vec(), &b"ann@x.com".to_vec(), &b"pw".to_vec(), 1).unwrap();
    let pair = s.login(&b"ann@x.com".to_vec(), &b"pw".to_vec(), 100).unwrap();
    // at the session's expiry second the ledger no longer answers
    assert!(s.refresh(pair.session_id, 100 + SESSION_TTL).is_err());
}

#[test]
fn revocation_after_logout() {
    let mut s = service();
    s.register(&b"Ann".to_vec(), &b"ann@x.com".to_vec(), &b"pw".to_vec(), 1).unwrap();
    let pair = s.login(&b"ann@x.com".to_vec(), &b"pw".to_vec(), 100).unwrap();
    assert!(s.refresh(pair.session_id, 101).is_ok());
    s.logout(pair.session_id);
    assert_eq!(s.refresh(pair.session_id, 102).unwrap_err(), AuthError::SessionInvalid);
    // tokens issued before the logout stay valid until their own expiry
    assert!(verify(KEY, &pair.access_token, 102).is_ok());
}

#[test]
fn session_isolation_between_two_logins() {
    let mut s = service();
    s.register(&b"Ann".to_vec(), &b"ann@x.com".to_vec(), &b"pw".to_vec(), 1).unwrap();
    let first = s.login_with(&b"ann@x.com".to_vec(), &b"pw".to_vec(), 111, 100).unwrap();
    let second = s.login_with(&b"ann@x.com".to_vec(), &b"pw".to_vec(), 222, 100).unwrap();
    s.logout(first.session_id);
    assert!(s.refresh(first.session_id, 101).is_err());
    assert!(s.refresh(second.session_id, 101).is_ok());
}

#[test]
fn logout_is_idempotent() {
    let mut s = service();
    s.register(&b"Ann".to_vec(), &b"ann@x.com".to_vec(), &b"pw".to_vec(), 1).unwrap();
    let pair = s.login(&b"ann@x.com".to_vec(), &b"pw".to_vec(), 100).unwrap();
    s.logout(pair.session_id);
    s.logout(pair.session_id);
    s.logout(999_999);
}

#[test]
fn get_current_user_excludes_digest_and_handles_vanished_subject() {
    let mut s = service();
    let p = s.register(&b"Ann".to_vec(), &b"ann@x.com".to_vec(), &b"pw".to_vec(), 7).unwrap();
    let me = s.get_current_user(p.id).unwrap();
    assert_eq!(me.id, p.id);
    assert_eq!(me.name, b"Ann".to_vec());
    assert_eq!(me.email, b"ann@x.com".to_vec());
    assert_eq!(me.created_at, 7);
    assert_eq!(s.get_current_user(p.id.wrapping_add(1)).unwrap_err(), AuthError::NotFound);
}

#[test]
fn end_to_end_scenario() {
    let mut s = service();
    // register
    let profile = s
        .register(&b"Ann".to_vec(), &b"ann@x.com".to_vec(), &b"pw123".to_vec(), 1_000)
        .unwrap();
    // login: access token and refresh session
    let pair = s.login(&b"ann@x.com".to_vec(), &b"pw123".to_vec(), 1_010).unwrap();
    // protected profile fetch through the middleware
    let mut header = b"Bearer ".to_vec();
    header.extend_from_slice(&pair.access_token);
    let subject = authorize(KEY, Some(&header), 1_011).unwrap();
    let me = s.get_current_user(subject).unwrap();
    assert_eq!(me.id, profile.id);
    // refresh: a new token, distinct from the first, both valid until
    // their own expiries
    let token2 = s.refresh(pair.session_id, 1_020).unwrap();
    assert_ne!(token2, pair.access_token);
    assert_eq!(verify(KEY, &pair.access_token, 1_011), Ok(subject));
    assert_eq!(verify(KEY, &token2, 1_021), Ok(subject));
    // logout, then the session is gone
    s.logout(pair.session_id);
    assert_eq!(s.refresh(pair.session_id, 1_030).unwrap_err(), AuthError::SessionInvalid);
}

#[test]
fn empty_name_and_password_are_handled() {
    let mut s = service();
    s.register(&Vec::new(), &b"a@b.c".to_vec(), &Vec::new(), 1).unwrap();
    assert!(s.login(&b"a@b.c".to_vec(), &Vec::new(), 2).is_ok());
    assert_eq!(
        s.login(&b"a@b.c".to_vec(), &b"x".to_vec(), 2).unwrap_err(),
        AuthError::InvalidCredentials
    );
}
