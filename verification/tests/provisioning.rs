use authit::errors::ErrorKind;
use authit::provision::{LinkStore, ProvisionLink};
use authit::service::{CreateOutcome, Service};
use authit::session::UserData;
use authit::uid::Uid;

fn uid_from(bytes: [u8; 16]) -> Uid {
    Uid::from_bytes(bytes.to_vec()).unwrap()
}

fn admin_user() -> UserData {
    UserData {
        user_id: "u-1".to_string(),
        username: "root".to_string(),
        display_name: "Root".to_string(),
        groups: vec!["admins@example.com".to_string(), "idm_all".to_string()],
        access_token: "bearer-token".to_string(),
    }
}

fn service_with_admin() -> (Service, String) {
    let mut svc = Service::new(
        b"a test signing secret".to_vec(),
        "admins@example.com".to_string(),
        "https://accounts.example.com".to_string(),
    );
    let session_id = uid_from([9u8; 16]);
    let cookie_value = svc.establish_session(session_id, admin_user()).unwrap();
    let header = format!("authit_session={}", cookie_value);
    (svc, header)
}

// A link whose identifier says it was created at millisecond 1000.
fn link_id() -> Uid {
    uid_from([0, 0, 0, 0, 0x03, 0xe8, 7, 7, 7, 7, 7, 7, 7, 7, 7, 7])
}

fn token_of(url: &str) -> &str {
    url.strip_prefix("https://accounts.example.com/provision/")
        .expect("URL must extend the base")
}

#[test]
fn generate_then_verify_reports_full_uses() {
    let (mut svc, header) = service_with_admin();
    let url = svc
        .generate_provision_url(Some(&header), link_id(), 1, Some(1), vec![])
        .unwrap();
    let info = svc.verify_provision(token_of(&url), 2000).unwrap();
    assert_eq!(info.uses_remaining, Some(1));
    // expires one hour after the creation instant the identifier carries
    assert_eq!(info.expires_at_ms, 1000 + 3_600_000);
}

#[test]
fn generate_reports_target_groups() {
    let (mut svc, header) = service_with_admin();
    let groups = vec!["staff".to_string(), "vpn".to_string()];
    let url = svc
        .generate_provision_url(Some(&header), link_id(), 2, Some(5), groups.clone())
        .unwrap();
    let info = svc.verify_provision(token_of(&url), 2000).unwrap();
    assert_eq!(info.groups, groups);
    assert_eq!(info.uses_remaining, Some(5));
}

#[test]
fn generate_without_admin_is_refused() {
    let mut svc = Service::new(
        b"a test signing secret".to_vec(),
        "admins@example.com".to_string(),
        "https://accounts.example.com".to_string(),
    );
    let r = svc.generate_provision_url(None, link_id(), 1, Some(1), vec![]);
    assert!(matches!(r, Err(e) if e.kind == ErrorKind::Unauthenticated));
}

#[test]
fn generate_twice_with_same_id_is_a_conflict() {
    let (mut svc, header) = service_with_admin();
    svc.generate_provision_url(Some(&header), link_id(), 1, Some(1), vec![])
        .unwrap();
    let r = svc.generate_provision_url(Some(&header), link_id(), 1, Some(1), vec![]);
    assert!(matches!(r, Err(e) if e.kind == ErrorKind::Conflict));
}

#[test]
fn single_use_consumes_exactly_once() {
    let (mut svc, header) = service_with_admin();
    let url = svc
        .generate_provision_url(Some(&header), link_id(), 1, Some(1), vec![])
        .unwrap();
    let tok = token_of(&url);
    let first = svc.complete_provision_begin(tok, 2000);
    assert!(first.is_ok());
    let second = svc.complete_provision_begin(tok, 2000);
    assert!(matches!(second, Err(e) if e.kind == ErrorKind::Exhausted));
}

#[test]
fn expired_link_fails_with_expiry_error_whatever_uses_remain() {
    let (mut svc, header) = service_with_admin();
    let url = svc
        .generate_provision_url(Some(&header), link_id(), 1, Some(10), vec![])
        .unwrap();
    let tok = token_of(&url);
    let past_expiry = 1000 + 3_600_000;
    assert!(matches!(
        svc.verify_provision(tok, past_expiry),
        Err(e) if e.kind == ErrorKind::Expired
    ));
    assert!(matches!(
        svc.complete_provision_begin(tok, past_expiry),
        Err(e) if e.kind == ErrorKind::Expired
    ));
    // All ten uses were still unspent.
    let info = svc.verify_provision(tok, 2000).unwrap();
    assert_eq!(info.uses_remaining, Some(10));
}

#[test]
fn failed_creation_rolls_the_use_back() {
    // The scenario: one-hour, single-use link; the identity provider's
    // account creation fails; the spent use comes back, and a later
    // consume succeeds.
    let (mut svc, header) = service_with_admin();
    let url = svc
        .generate_provision_url(Some(&header), link_id(), 1, Some(1), vec![])
        .unwrap();
    let tok = token_of(&url);
    assert_eq!(svc.verify_provision(tok, 2000).unwrap().uses_remaining, Some(1));

    let pending = svc.complete_provision_begin(tok, 2000).unwrap();
    let settled = svc.complete_provision_settle(
        &pending,
        CreateOutcome::CreateFailed("upstream said no".to_string()),
    );
    assert!(matches!(
        settled,
        Err(e) if e.kind == ErrorKind::UpstreamError("upstream said no".to_string())
    ));

    // The rollback restored the pre-consume count.
    assert_eq!(svc.verify_provision(tok, 2000).unwrap().uses_remaining, Some(1));
    // And a subsequent consume succeeds.
    assert!(svc.complete_provision_begin(tok, 2000).is_ok());
}

#[test]
fn uncertain_outcome_is_never_rolled_back() {
    let (mut svc, header) = service_with_admin();
    let url = svc
        .generate_provision_url(Some(&header), link_id(), 1, Some(2), vec![])
        .unwrap();
    let tok = token_of(&url);
    let pending = svc.complete_provision_begin(tok, 2000).unwrap();
    let settled = svc.complete_provision_settle(&pending, CreateOutcome::Uncertain);
    assert!(matches!(settled, Err(e) if e.kind == ErrorKind::Uncertain));
    // The consumed use stays spent.
    assert_eq!(svc.verify_provision(tok, 2000).unwrap().uses_remaining, Some(1));
}

#[test]
fn successful_creation_keeps_the_use_spent() {
    let (mut svc, header) = service_with_admin();
    let url = svc
        .generate_provision_url(Some(&header), link_id(), 1, Some(3), vec![])
        .unwrap();
    let tok = token_of(&url);
    let pending = svc.complete_provision_begin(tok, 2000).unwrap();
    assert!(svc
        .complete_provision_settle(&pending, CreateOutcome::Created)
        .is_ok());
    assert_eq!(svc.verify_provision(tok, 2000).unwrap().uses_remaining, Some(2));
}

#[test]
fn racing_consumes_on_a_single_use_link_yield_one_winner() {
    // Five redemption attempts on a single-use link: exactly one succeeds,
    // the other four fail as exhausted.
    let (mut svc, header) = service_with_admin();
    let url = svc
        .generate_provision_url(Some(&header), link_id(), 1, Some(1), vec![])
        .unwrap();
    let tok = token_of(&url);
    let mut wins = 0;
    let mut exhausted = 0;
    for _ in 0..5 {
        match svc.complete_provision_begin(tok, 2000) {
            Ok(_) => wins += 1,
            Err(e) => {
                assert_eq!(e.kind, ErrorKind::Exhausted);
                exhausted += 1;
            }
        }
    }
    assert_eq!(wins, 1);
    assert_eq!(exhausted, 4);
}

#[test]
fn unlimited_link_never_exhausts() {
    let (mut svc, header) = service_with_admin();
    let url = svc
        .generate_provision_url(Some(&header), link_id(), 1, None, vec![])
        .unwrap();
    let tok = token_of(&url);
    for _ in 0..20 {
        assert!(svc.complete_provision_begin(tok, 2000).is_ok());
    }
    assert_eq!(svc.verify_provision(tok, 2000).unwrap().uses_remaining, None);
}

#[test]
fn unknown_link_is_not_found() {
    let (mut svc, header) = service_with_admin();
    let url = svc
        .generate_provision_url(Some(&header), link_id(), 1, Some(1), vec![])
        .unwrap();
    let tok = token_of(&url);
    // A token signed with the same secret for an identifier never stored.
    let other = authit::codec::sign_token(&b"a test signing secret".to_vec(), &uid_from([8u8; 16]));
    assert!(matches!(
        svc.verify_provision(&other, 2000),
        Err(e) if e.kind == ErrorKind::NotFound
    ));
    // The genuine link is still fine.
    assert!(svc.verify_provision(tok, 2000).is_ok());
}

#[test]
fn garbage_token_is_invalid_token() {
    let (svc, _) = service_with_admin();
    let r = svc.verify_provision("not-a-token", 2000);
    assert!(matches!(r, Err(e) if matches!(e.kind, ErrorKind::InvalidToken(_))));
}

#[test]
fn finish_reports_partial_failure_distinctly() {
    let reset = authit::kanidm::ResetLink {
        url: "https://idm.example.com/ui/reset?token=abc".to_string(),
        expires_at: 123,
    };
    let ok = Service::complete_provision_finish(reset.dup(), None).unwrap();
    assert_eq!(ok.url, reset.url);
    assert_eq!(ok.expires_at, 123);

    let failed = Service::complete_provision_finish(reset, Some("staff".to_string()));
    assert!(matches!(
        failed,
        Err(e) if e.kind == ErrorKind::PartialFailure("staff".to_string())
    ));
}

#[test]
fn purge_sweeps_exactly_the_dead_links() {
    let mut store = LinkStore::new();
    // Expires at 1000 + 10ms = 1010.
    let dead = ProvisionLink::with_id(link_id(), 10, Some(5), vec![]);
    let live_id = uid_from([0, 0, 0, 0, 0x03, 0xe8, 1, 1, 1, 1, 1, 1, 1, 1, 1, 1]);
    let live = ProvisionLink::with_id(live_id.dup(), 3_600_000, Some(5), vec![]);
    let spent_id = uid_from([0, 0, 0, 0, 0x03, 0xe8, 2, 2, 2, 2, 2, 2, 2, 2, 2, 2]);
    let spent = ProvisionLink::with_id(spent_id.dup(), 3_600_000, Some(1), vec![]);
    store.insert(dead).unwrap();
    store.insert(live).unwrap();
    store.insert(spent).unwrap();
    store.consume(&spent_id, 2000).unwrap();

    store.purge_expired(2000);
    assert!(store.find(&link_id()).is_none(), "expired link must be swept");
    assert!(store.find(&spent_id).is_none(), "spent link must be swept");
    let kept = store.find(&live_id).expect("live link must stay");
    assert_eq!(kept.use_count(), 0);
}

#[test]
fn delete_revokes_a_link() {
    let mut store = LinkStore::new();
    store
        .insert(ProvisionLink::with_id(link_id(), 3_600_000, Some(1), vec![]))
        .unwrap();
    store.delete(&link_id());
    assert!(store.find(&link_id()).is_none());
    // Deleting again is harmless.
    store.delete(&link_id());
}

#[test]
fn export_and_restore_round_trip_the_link_store() {
    let mut store = LinkStore::new();
    let groups = vec!["staff".to_string()];
    store
        .insert(ProvisionLink::with_id(link_id(), 3_600_000, Some(2), groups.clone()))
        .unwrap();
    store.consume(&link_id(), 2000).unwrap();

    // Persist: plain parts out ...
    let exported = store.export();
    assert_eq!(exported.len(), 1);
    let l = &exported[0];
    assert_eq!(l.id().as_bytes(), link_id().as_bytes());
    assert_eq!(l.expires_at_ms(), 1000 + 3_600_000);
    assert_eq!(l.max_uses(), Some(2));
    assert_eq!(l.use_count(), 1);
    assert_eq!(l.groups(), &groups);

    // ... and back in, with the live state intact.
    let mut reloaded = LinkStore::new();
    let restored = ProvisionLink::restore(
        link_id(),
        l.expires_at_ms(),
        l.max_uses(),
        l.use_count(),
        groups.clone(),
    )
    .unwrap();
    reloaded.insert(restored).unwrap();
    let back = reloaded.find(&link_id()).unwrap();
    assert_eq!(back.use_count(), 1);
    assert_eq!(back.uses_remaining(), Some(1));
}

#[test]
fn restore_refuses_malformed_parts() {
    // A count above the bound cannot come from a well-formed store.
    assert!(ProvisionLink::restore(link_id(), 10, Some(1), 2, vec![]).is_none());
    // A short identifier cannot either.
    let short = Uid::from_bytes(vec![1, 2, 3]);
    assert!(short.is_none());
}

#[test]
fn service_purge_sweeps_dead_links() {
    let (mut svc, header) = service_with_admin();
    let url = svc
        .generate_provision_url(Some(&header), link_id(), 1, Some(1), vec![])
        .unwrap();
    let tok = token_of(&url);
    // Past the expiry the link is dead; the sweep removes it.
    svc.purge_links(1000 + 3_600_000);
    assert!(matches!(
        svc.verify_provision(tok, 2000),
        Err(e) if e.kind == ErrorKind::NotFound
    ));
}

#[test]
fn service_session_export_round_trips() {
    let mut svc = Service::new(
        b"a test signing secret".to_vec(),
        "admins@example.com".to_string(),
        "https://accounts.example.com".to_string(),
    );
    let cookie_value = svc.establish_session(uid_from([9u8; 16]), admin_user()).unwrap();
    let header = format!("authit_session={}", cookie_value);

    let sessions = svc.export_sessions();
    assert_eq!(sessions.len(), 1);

    // A fresh service loaded from the exported records resolves the same
    // cookie.
    let mut reloaded = Service::new(
        b"a test signing secret".to_vec(),
        "admins@example.com".to_string(),
        "https://accounts.example.com".to_string(),
    );
    for s in sessions {
        reloaded.import_session(s).unwrap();
    }
    let user = reloaded.current_user(Some(&header)).unwrap();
    assert_eq!(user.username, "root");
    assert!(reloaded.require_admin(Some(&header)).is_ok());
}
