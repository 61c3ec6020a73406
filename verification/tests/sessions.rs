use authit::authz::{get_session_from_cookie, require_admin_session};
use authit::errors::ErrorKind;
use authit::service::Service;
use authit::session::{Session, SessionError, SessionStore, UserData, SESSION_COOKIE_NAME};
use authit::uid::Uid;

fn uid_from(bytes: [u8; 16]) -> Uid {
    Uid::from_bytes(bytes.to_vec()).unwrap()
}

fn secret() -> Vec<u8> {
    b"a test signing secret".to_vec()
}

fn user(groups: &[&str]) -> UserData {
    UserData {
        user_id: "u-42".to_string(),
        username: "jdoe".to_string(),
        display_name: "Jane Doe".to_string(),
        groups: groups.iter().map(|g| g.to_string()).collect(),
        access_token: "bearer".to_string(),
    }
}

fn store_with(groups: &[&str]) -> (SessionStore, String) {
    let mut store = SessionStore::new();
    let session = Session::with_id(uid_from([1u8; 16]), user(groups));
    let cookie_value = session.as_token(&secret());
    store.insert(session).unwrap();
    (store, cookie_value)
}

#[test]
fn cookie_name_is_stable() {
    assert_eq!(SESSION_COOKIE_NAME, "authit_session");
}

#[test]
fn resolves_session_from_cookie_header() {
    let (store, value) = store_with(&["idm_all"]);
    let header = format!("authit_session={}", value);
    let u = get_session_from_cookie(&store, &secret(), Some(&header)).unwrap();
    assert_eq!(u.username, "jdoe");
    assert_eq!(u.groups, vec!["idm_all".to_string()]);
}

#[test]
fn resolves_among_several_cookies_with_padding() {
    let (store, value) = store_with(&["idm_all"]);
    let header = format!("theme=dark;  authit_session={} ; lang=en", value);
    let u = get_session_from_cookie(&store, &secret(), Some(&header)).unwrap();
    assert_eq!(u.user_id, "u-42");
}

#[test]
fn missing_header_or_cookie_is_unauthenticated() {
    let (store, _value) = store_with(&["idm_all"]);
    let r = get_session_from_cookie(&store, &secret(), None);
    assert!(matches!(r, Err(e) if e.kind == ErrorKind::Unauthenticated));
    let r = get_session_from_cookie(&store, &secret(), Some("theme=dark; lang=en"));
    assert!(matches!(r, Err(e) if e.kind == ErrorKind::Unauthenticated));
}

#[test]
fn wrong_cookie_name_does_not_match() {
    let (store, value) = store_with(&["idm_all"]);
    let header = format!("authit_session2={}", value);
    let r = get_session_from_cookie(&store, &secret(), Some(&header));
    assert!(matches!(r, Err(e) if e.kind == ErrorKind::Unauthenticated));
}

#[test]
fn tampered_session_cookie_is_unauthenticated() {
    let (store, value) = store_with(&["idm_all"]);
    let bytes = value.as_bytes();
    for i in 0..bytes.len() {
        let mut t = bytes.to_vec();
        t[i] ^= 1;
        let header = format!("authit_session={}", String::from_utf8(t).unwrap());
        let r = get_session_from_cookie(&store, &secret(), Some(&header));
        assert!(
            matches!(r, Err(ref e) if e.kind == ErrorKind::Unauthenticated),
            "flip at {} resolved",
            i
        );
    }
}

#[test]
fn admin_group_member_passes_the_gate() {
    let (store, value) = store_with(&["idm_all", "admins@example.com"]);
    let header = format!("authit_session={}", value);
    let u = require_admin_session(&store, &secret(), "admins@example.com", Some(&header)).unwrap();
    assert_eq!(u.username, "jdoe");
}

#[test]
fn valid_session_without_admin_group_is_forbidden() {
    // The refusal is Forbidden — distinct from not being signed in.
    let (store, value) = store_with(&["idm_all", "admins"]);
    let header = format!("authit_session={}", value);
    let r = require_admin_session(&store, &secret(), "admins@example.com", Some(&header));
    assert!(matches!(r, Err(e) if e.kind == ErrorKind::Forbidden));
}

#[test]
fn group_match_is_exact() {
    let u = user(&["admins@example.com", "staff"]);
    assert!(u.is_in_group("admins@example.com"));
    assert!(!u.is_in_group("admins"));
    assert!(!u.is_in_group("admins@example.com "));
    assert!(!u.is_in_group(""));
}

#[test]
fn find_token_distinguishes_bad_token_from_missing_session() {
    let (store, value) = store_with(&["idm_all"]);
    assert!(matches!(
        store.find_token(&secret(), "garbage"),
        Err(SessionError::InvalidSession)
    ));
    // A genuine token for a session that is not on file.
    let other = authit::codec::sign_token(&secret(), &uid_from([2u8; 16]));
    assert!(matches!(
        store.find_token(&secret(), &other),
        Err(SessionError::NotFound)
    ));
    assert!(store.find_token(&secret(), &value).is_ok());
}

#[test]
fn delete_token_logs_out_best_effort() {
    let (mut store, value) = store_with(&["idm_all"]);
    // Deleting with a bad token is not an error and changes nothing.
    store.delete_token(&secret(), "garbage");
    assert!(store.find_token(&secret(), &value).is_ok());
    // Deleting with the genuine token removes the session ...
    store.delete_token(&secret(), &value);
    assert!(matches!(
        store.find_token(&secret(), &value),
        Err(SessionError::NotFound)
    ));
    // ... and doing it again is still fine.
    store.delete_token(&secret(), &value);
}

#[test]
fn service_logout_clears_the_session() {
    let mut svc = Service::new(secret(), "admins".to_string(), "https://x".to_string());
    let value = svc.establish_session(uid_from([4u8; 16]), user(&["idm_all"])).unwrap();
    let header = format!("authit_session={}", value);
    assert!(svc.current_user(Some(&header)).is_some());
    svc.logout(Some(&header));
    assert!(svc.current_user(Some(&header)).is_none());
    // Logout never fails, even with nothing to do.
    svc.logout(Some(&header));
    svc.logout(None);
}

#[test]
fn current_user_is_none_for_anonymous_callers() {
    let svc = Service::new(secret(), "admins".to_string(), "https://x".to_string());
    assert!(svc.current_user(None).is_none());
    assert!(svc.current_user(Some("authit_session=bogus")).is_none());
}

#[test]
fn establish_session_refuses_a_duplicate_identifier() {
    let mut svc = Service::new(secret(), "admins".to_string(), "https://x".to_string());
    svc.establish_session(uid_from([5u8; 16]), user(&[])).unwrap();
    let r = svc.establish_session(uid_from([5u8; 16]), user(&[]));
    assert!(matches!(r, Err(e) if e.kind == ErrorKind::Conflict));
}

#[test]
fn session_cookie_value_is_the_signed_id() {
    // The cookie value a session hands out must verify back to its own
    // identifier under the same secret.
    let session = Session::with_id(uid_from([6u8; 16]), user(&[]));
    let value = session.as_token(&secret());
    let id = authit::codec::verify_token(&secret(), &value).unwrap();
    assert_eq!(id.as_bytes(), session.id().as_bytes());
}
