use authit::errors::ErrorKind;
use authit::oauth::PkceCache;
use authit::service::Service;

fn svc() -> Service {
    Service::new(
        b"a test signing secret".to_vec(),
        "admins".to_string(),
        "https://x".to_string(),
    )
}

#[test]
fn callback_redeems_the_state_exactly_once() {
    let mut s = svc();
    s.login_begin("state-1".to_string(), "verifier-1".to_string(), 1000);
    let v = s.login_callback("state-1").unwrap();
    assert_eq!(v, "verifier-1");
    // A replay of the same state is a hard error.
    let r = s.login_callback("state-1");
    assert!(matches!(r, Err(e) if e.kind == ErrorKind::InvalidState));
}

#[test]
fn unknown_state_is_invalid() {
    let mut s = svc();
    s.login_begin("state-1".to_string(), "verifier-1".to_string(), 1000);
    let r = s.login_callback("state-2");
    assert!(matches!(r, Err(e) if e.kind == ErrorKind::InvalidState));
}

#[test]
fn stale_logins_are_swept_out_when_a_new_one_starts() {
    let mut s = svc();
    s.login_begin("old".to_string(), "v-old".to_string(), 0);
    // Ten minutes later the old entry's deadline has passed; starting a
    // new login sweeps it out.
    s.login_begin("new".to_string(), "v-new".to_string(), 600_000);
    assert!(matches!(
        s.login_callback("old"),
        Err(e) if e.kind == ErrorKind::InvalidState
    ));
    assert_eq!(s.login_callback("new").unwrap(), "v-new");
}

#[test]
fn live_logins_survive_the_sweep() {
    let mut s = svc();
    s.login_begin("a".to_string(), "v-a".to_string(), 100_000);
    // The deadline is ten minutes; at 699 999 ms the first entry is still
    // one millisecond from expiry.
    s.login_begin("b".to_string(), "v-b".to_string(), 699_999);
    assert_eq!(s.login_callback("a").unwrap(), "v-a");
    assert_eq!(s.login_callback("b").unwrap(), "v-b");
}

#[test]
fn restarting_a_login_replaces_the_verifier() {
    let mut s = svc();
    s.login_begin("state".to_string(), "first".to_string(), 1000);
    s.login_begin("state".to_string(), "second".to_string(), 2000);
    assert_eq!(s.login_callback("state").unwrap(), "second");
}

#[test]
fn cache_sweep_keeps_exactly_the_live_entries() {
    let mut cache = PkceCache::new();
    cache.insert("a".to_string(), "v-a".to_string(), 0);
    cache.insert("b".to_string(), "v-b".to_string(), 300_000);
    cache.insert("c".to_string(), "v-c".to_string(), 600_000);
    cache.cleanup_old_verifiers(650_000);
    // "a" died at 600 000, "b" lives until 900 000, "c" until 1 200 000.
    assert!(cache.take("a").is_none());
    assert_eq!(cache.take("b").unwrap(), "v-b");
    assert_eq!(cache.take("c").unwrap(), "v-c");
}
