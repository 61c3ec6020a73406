//! The provisioning orchestrator: the operations an administrator and a
//! link holder see, tying the codec, the stores and the authorization gate
//! together. Completion is split at its outside calls — consume first, then
//! the account creation happens elsewhere, then the outcome is settled
//! here — so the compensation policy (roll back a failed creation, never a
//! failed group assignment, never an uncertain outcome) is itself verified.

use vstd::prelude::*;
use vstd::utf8::encode_utf8;

use crate::authz::admin_outcome;
use crate::authz::cookie_lookup;
use crate::authz::cookie_name_bytes;
use crate::authz::cookie_value_in;
use crate::authz::get_session_from_cookie;
use crate::authz::header_view;
use crate::authz::require_admin_session;
use crate::authz::resolve_outcome;
use crate::codec::is_signed_token;
use crate::codec::sign_token;
use crate::codec::token_bytes_of;
use crate::codec::verify_outcome;
use crate::codec::verify_token;
use crate::codec::verify_token_bytes;
use crate::codec::lemma_sign_verify_round_trip;
use crate::errors::Error;
use crate::errors::ErrorKind;
use crate::kanidm::ResetLink;
use crate::oauth::evicted;
use crate::oauth::AttemptModel;
use crate::oauth::PkceCache;
use crate::provision::consume_map;
use crate::provision::consume_result;
use crate::provision::lemma_fresh_link_verifies;
use crate::provision::purged;
use crate::provision::link_check;
use crate::provision::remaining_of;
use crate::provision::rollback_map;
use crate::provision::LinkModel;
use crate::provision::LinkStore;
use crate::provision::ProvisionLink;
use crate::session::Session;
use crate::session::SessionStore;
use crate::session::UserData;
use crate::session::UserDataModel;
use crate::strutil::chars_of_ascii;
use crate::strutil::copy_strings;
use crate::strutil::str_bytes;
use crate::uid::creation_ms_of;
use crate::uid::Uid;

verus! {

/// Relies on jiff's `Timestamp::now` and `as_millisecond`: the current
/// instant in milliseconds since the Unix epoch. Nothing can be promised
/// about the value.
#[verifier::external_body]
fn now_unix_ms() -> (r: u64) {
    jiff::Timestamp::now().as_millisecond() as u64
}

/// What a link holder learns from a pre-flight check: when the link dies,
/// how many uses remain, and which groups it would grant.
pub struct LinkInfo {
    pub expires_at_ms: u64,
    pub uses_remaining: Option<u32>,
    pub groups: Vec<String>,
}

/// A consumed-but-not-yet-completed provisioning: what the caller needs to
/// create the account and to settle afterwards.
pub struct PendingProvision {
    /// The link's identifier, for the rollback path.
    pub id: Uid,
    /// The groups the new account is to be added to.
    pub groups: Vec<String>,
}

/// How the account-creation call ended, as reported by the caller.
pub enum CreateOutcome {
    /// The account exists.
    Created,
    /// The creation failed outright; the payload is the operator-facing
    /// detail.
    CreateFailed(String),
    /// The result is unknown (a timeout, a lost connection): neither
    /// success nor failure may be assumed.
    Uncertain,
}

/// What a token-then-store verification returns, for any token bytes: the
/// codec's verdict first, then the link lifecycle check.
pub open spec fn verify_provision_outcome(
    m: Map<Seq<u8>, LinkModel>,
    secret: Seq<u8>,
    tokb: Seq<u8>,
    now_ms: u64,
) -> Result<LinkModel, ErrorKind> {
    match verify_outcome(secret, tokb) {
        Err(te) => Err(ErrorKind::InvalidToken(te)),
        Ok(id) => link_check(m, id, now_ms),
    }
}

/// The sessions after a logout with a given cookie header: if the header
/// carries a session cookie that verifies, that session is gone; anything
/// else changes nothing.
pub open spec fn logout_map(
    m: Map<Seq<u8>, UserDataModel>,
    secret: Seq<u8>,
    header: Option<Seq<char>>,
) -> Map<Seq<u8>, UserDataModel> {
    match header {
        None => m,
        Some(h) => match cookie_value_in(encode_utf8(h), cookie_name_bytes()) {
            None => m,
            Some(tok) => match verify_outcome(secret, tok) {
                Ok(id) => m.remove(id),
                Err(_) => m,
            },
        },
    }
}

/// The application's state: the signing secret, the admin group name, the
/// base URL that provisioning links extend, and the three stores.
pub struct Service {
    secret: Vec<u8>,
    admin_group: String,
    base_url: String,
    links: LinkStore,
    sessions: SessionStore,
    pkce: PkceCache,
}

impl Service {
    /// The signing secret.
    pub closed spec fn secret_spec(&self) -> Seq<u8> {
        self.secret@
    }

    /// The admin group name.
    pub closed spec fn admin_group_spec(&self) -> Seq<char> {
        self.admin_group@
    }

    /// The base URL.
    pub closed spec fn base_url_spec(&self) -> Seq<char> {
        self.base_url@
    }

    /// The provisioning links on file.
    pub closed spec fn links_view(&self) -> Map<Seq<u8>, LinkModel> {
        self.links@
    }

    /// The sessions on file.
    pub closed spec fn sessions_view(&self) -> Map<Seq<u8>, UserDataModel> {
        self.sessions@
    }

    /// The pending logins on file.
    pub closed spec fn pkce_view(&self) -> Map<Seq<u8>, AttemptModel> {
        self.pkce@
    }

    /// All three stores are well formed.
    pub closed spec fn wf(&self) -> bool {
        &&& self.links.wf()
        &&& self.sessions.wf()
        &&& self.pkce.wf()
    }

    /// The configuration is unchanged between two states.
    pub open spec fn same_config(&self, other: &Self) -> bool {
        &&& self.secret_spec() == other.secret_spec()
        &&& self.admin_group_spec() == other.admin_group_spec()
        &&& self.base_url_spec() == other.base_url_spec()
    }

    /// A service with empty stores.
    pub fn new(secret: Vec<u8>, admin_group: String, base_url: String) -> (r: Self)
        ensures
            r.wf(),
            r.secret_spec() == secret@,
            r.admin_group_spec() == admin_group@,
            r.base_url_spec() == base_url@,
            r.links_view() == Map::<Seq<u8>, LinkModel>::empty(),
            r.sessions_view() == Map::<Seq<u8>, UserDataModel>::empty(),
            r.pkce_view() == Map::<Seq<u8>, AttemptModel>::empty(),
    {
        Service {
            secret,
            admin_group,
            base_url,
            links: LinkStore::new(),
            sessions: SessionStore::new(),
            pkce: PkceCache::new(),
        }
    }

    /// Mints a provisioning link and returns its URL. Admin only: the
    /// caller's cookie must resolve to a session in the admin group. The
    /// link expires `duration_hours` after the identifier's creation
    /// instant and allows `max_uses` redemptions.
    pub fn generate_provision_url(
        &mut self,
        cookie_header: Option<&str>,
        id: Uid,
        duration_hours: u32,
        max_uses: Option<u32>,
        group_names: Vec<String>,
    ) -> (r: Result<String, Error>)
        requires
            old(self).wf(),
            id.wf(),
        ensures
            final(self).wf(),
            final(self).same_config(old(self)),
            final(self).sessions_view() == old(self).sessions_view(),
            final(self).pkce_view() == old(self).pkce_view(),
            r is Ok <==> (admin_outcome(
                old(self).sessions_view(),
                old(self).secret_spec(),
                header_view(cookie_header),
                old(self).admin_group_spec(),
            ) is Ok && !old(self).links_view().dom().contains(id@)),
            r matches Ok(url) ==> final(self).links_view() == old(self).links_view().insert(
                id@,
                LinkModel {
                    expires_at_ms: (creation_ms_of(id@) + duration_hours * 3600000) as u64,
                    max_uses: max_uses,
                    use_count: 0u32,
                    groups: group_names.deep_view(),
                },
            ) && url@ == old(self).base_url_spec() + "/provision/"@ + chars_of_ascii(
                token_bytes_of(old(self).secret_spec(), id@),
            ),
            r matches Err(e) ==> final(self).links_view() == old(self).links_view() && e.kind
                == (match admin_outcome(
                old(self).sessions_view(),
                old(self).secret_spec(),
                header_view(cookie_header),
                old(self).admin_group_spec(),
            ) {
                Err(k) => k,
                Ok(_) => ErrorKind::Conflict,
            }),
    {
        match require_admin_session(
            &self.sessions,
            &self.secret,
            self.admin_group.as_str(),
            cookie_header,
        ) {
            Err(e) => {
                return Err(e);
            },
            Ok(_admin) => {},
        }
        let duration_ms: u64 = (duration_hours as u64) * 3600000;
        let link = ProvisionLink::with_id(id, duration_ms, max_uses, group_names);
        let token = link.as_token(&self.secret);
        match self.links.insert(link) {
            Err(e) => Err(e),
            Ok(()) => {
                let mut url = self.base_url.clone();
                vstd::string::StringExecFns::append(&mut url, "/provision/");
                vstd::string::StringExecFns::append(&mut url, token.as_str());
                Ok(url)
            },
        }
    }

    /// The pre-flight check a link holder's form does: decode the token,
    /// then report the link's state without spending a use.
    pub fn verify_provision(&self, token: &str, now_ms: u64) -> (r: Result<LinkInfo, Error>)
        requires
            self.wf(),
        ensures
            r matches Ok(info) ==> (verify_provision_outcome(
                self.links_view(),
                self.secret_spec(),
                encode_utf8(token@),
                now_ms,
            ) matches Ok(l) && info.expires_at_ms == l.expires_at_ms && info.uses_remaining
                == remaining_of(l) && info.groups.deep_view() == l.groups),
            r matches Err(e) ==> verify_provision_outcome(
                self.links_view(),
                self.secret_spec(),
                encode_utf8(token@),
                now_ms,
            ) == Err::<LinkModel, ErrorKind>(e.kind),
    {
        let id = match verify_token(&self.secret, token) {
            Err(te) => {
                return Err(Error::new(ErrorKind::InvalidToken(te)));
            },
            Ok(id) => id,
        };
        let link = match self.links.find(&id) {
            None => {
                return Err(Error::new(ErrorKind::NotFound));
            },
            Some(l) => l,
        };
        match link.verify(now_ms) {
            Err(e) => Err(e),
            Ok(()) => Ok(
                LinkInfo {
                    expires_at_ms: link.expires_at_ms(),
                    uses_remaining: link.uses_remaining(),
                    groups: copy_strings(link.groups()),
                },
            ),
        }
    }

    /// The pre-flight check against the real clock. The instant read is
    /// not observable here, so the contract says only that the result is
    /// the check's verdict at some instant.
    pub fn verify_provision_now(&self, token: &str) -> (r: Result<LinkInfo, Error>)
        requires
            self.wf(),
        ensures
            r matches Ok(info) ==> exists|now_ms: u64|
                (#[trigger] verify_provision_outcome(
                    self.links_view(),
                    self.secret_spec(),
                    encode_utf8(token@),
                    now_ms,
                ) matches Ok(l) && info.expires_at_ms == l.expires_at_ms && info.uses_remaining
                    == remaining_of(l) && info.groups.deep_view() == l.groups),
            r matches Err(e) ==> exists|now_ms: u64|
                #[trigger] verify_provision_outcome(
                    self.links_view(),
                    self.secret_spec(),
                    encode_utf8(token@),
                    now_ms,
                ) == Err::<LinkModel, ErrorKind>(e.kind),
    {
        let now_ms = now_unix_ms();
        self.verify_provision(token, now_ms)
    }

    /// The point of no return of a completion: decode the token and consume
    /// one use, atomically with the bound check. What comes back is what
    /// the caller needs to create the account and to settle afterwards.
    pub fn complete_provision_begin(&mut self, token: &str, now_ms: u64) -> (r: Result<
        PendingProvision,
        Error,
    >)
        requires
            old(self).wf(),
        ensures
            final(self).wf(),
            final(self).same_config(old(self)),
            final(self).sessions_view() == old(self).sessions_view(),
            final(self).pkce_view() == old(self).pkce_view(),
            final(self).links_view() == (match verify_outcome(
                old(self).secret_spec(),
                encode_utf8(token@),
            ) {
                Ok(id) => consume_map(old(self).links_view(), id, now_ms),
                Err(_) => old(self).links_view(),
            }),
            r matches Ok(p) ==> (verify_outcome(old(self).secret_spec(), encode_utf8(token@))
                matches Ok(id) && p.id@ == id && (consume_result(
                old(self).links_view(),
                id,
                now_ms,
            ) matches Ok(mdl) && p.groups.deep_view() == mdl.groups)),
            r matches Err(e) ==> (match verify_outcome(
                old(self).secret_spec(),
                encode_utf8(token@),
            ) {
                Err(te) => e.kind == ErrorKind::InvalidToken(te),
                Ok(id) => (consume_result(old(self).links_view(), id, now_ms) matches Err(k)
                    && e.kind == k),
            }),
    {
        let id = match verify_token(&self.secret, token) {
            Err(te) => {
                return Err(Error::new(ErrorKind::InvalidToken(te)));
            },
            Ok(id) => id,
        };
        match self.links.consume(&id, now_ms) {
            Err(e) => Err(e),
            Ok(link) => {
                let groups = copy_strings(link.groups());
                Ok(PendingProvision { id, groups })
            },
        }
    }

    /// Settles the account-creation outcome. A failed creation rolls the
    /// consumed use back, so the link is not wasted; an uncertain outcome
    /// is never rolled back — the use stays spent until an operator
    /// reconciles; a success changes nothing here.
    pub fn complete_provision_settle(
        &mut self,
        pending: &PendingProvision,
        outcome: CreateOutcome,
    ) -> (r: Result<(), Error>)
        requires
            old(self).wf(),
        ensures
            final(self).wf(),
            final(self).same_config(old(self)),
            final(self).sessions_view() == old(self).sessions_view(),
            final(self).pkce_view() == old(self).pkce_view(),
            final(self).links_view() == (if outcome matches CreateOutcome::CreateFailed(_) {
                rollback_map(old(self).links_view(), pending.id@)
            } else {
                old(self).links_view()
            }),
            r is Ok <==> outcome is Created,
            r matches Err(e) ==> e.kind == (match outcome {
                CreateOutcome::CreateFailed(m) => ErrorKind::UpstreamError(m),
                _ => ErrorKind::Uncertain,
            }),
    {
        match outcome {
            CreateOutcome::Created => Ok(()),
            CreateOutcome::CreateFailed(msg) => {
                self.links.decrement(&pending.id);
                Err(Error::new(ErrorKind::UpstreamError(msg)))
            },
            CreateOutcome::Uncertain => Err(Error::new(ErrorKind::Uncertain)),
        }
    }

    /// Settles the group-assignment step. A failure here is partial — the
    /// account already exists — so it takes no store and can roll nothing
    /// back; it is reported distinctly for an operator to finish by hand.
    pub fn complete_provision_finish(reset_link: ResetLink, failed_group: Option<String>) -> (r:
        Result<ResetLink, Error>)
        ensures
            r is Ok <==> failed_group is None,
            r matches Ok(rl) ==> rl.url@ == reset_link.url@ && rl.expires_at
                == reset_link.expires_at,
            r matches Err(e) ==> (failed_group matches Some(g) && e.kind
                == ErrorKind::PartialFailure(g)),
    {
        match failed_group {
            None => Ok(reset_link),
            Some(g) => Err(Error::new(ErrorKind::PartialFailure(g))),
        }
    }

    /// Starts a login: sweeps stale pending logins out, then files the
    /// fresh verifier under its state value.
    pub fn login_begin(&mut self, state: String, verifier: String, now_ms: u64)
        requires
            old(self).wf(),
        ensures
            final(self).wf(),
            final(self).same_config(old(self)),
            final(self).links_view() == old(self).links_view(),
            final(self).sessions_view() == old(self).sessions_view(),
            final(self).pkce_view() == evicted(old(self).pkce_view(), now_ms).insert(
                encode_utf8(state@),
                AttemptModel { verifier: verifier@, created_ms: now_ms },
            ),
    {
        self.pkce.cleanup_old_verifiers(now_ms);
        self.pkce.insert(state, verifier, now_ms);
    }

    /// Redeems a login callback's state value for its verifier, exactly
    /// once; a miss — expired, replayed or forged — is a hard error.
    pub fn login_callback(&mut self, state: &str) -> (r: Result<String, Error>)
        requires
            old(self).wf(),
        ensures
            final(self).wf(),
            final(self).same_config(old(self)),
            final(self).links_view() == old(self).links_view(),
            final(self).sessions_view() == old(self).sessions_view(),
            r matches Ok(v) ==> old(self).pkce_view().dom().contains(encode_utf8(state@)) && v@
                == old(self).pkce_view()[encode_utf8(state@)].verifier && final(self).pkce_view()
                == old(self).pkce_view().remove(encode_utf8(state@)),
            r matches Err(e) ==> e.kind == ErrorKind::InvalidState && !old(
                self,
            ).pkce_view().dom().contains(encode_utf8(state@)) && final(self).pkce_view() == old(
                self,
            ).pkce_view(),
    {
        match self.pkce.take(state) {
            Some(v) => Ok(v),
            None => Err(Error::new(ErrorKind::InvalidState)),
        }
    }

    /// Materializes a session for freshly fetched claims and returns the
    /// signed cookie value that names it.
    pub fn establish_session(&mut self, id: Uid, user_data: UserData) -> (r: Result<String, Error>)
        requires
            old(self).wf(),
            id.wf(),
        ensures
            final(self).wf(),
            final(self).same_config(old(self)),
            final(self).links_view() == old(self).links_view(),
            final(self).pkce_view() == old(self).pkce_view(),
            r is Ok <==> !old(self).sessions_view().dom().contains(id@),
            r matches Ok(tok) ==> final(self).sessions_view() == old(self).sessions_view().insert(
                id@,
                user_data.model(),
            ) && tok@ == chars_of_ascii(token_bytes_of(old(self).secret_spec(), id@)),
            r matches Err(e) ==> e.kind == ErrorKind::Conflict && final(self).sessions_view()
                == old(self).sessions_view(),
    {
        let token = sign_token(&self.secret, &id);
        match self.sessions.insert(Session::with_id(id, user_data)) {
            Ok(()) => Ok(token),
            Err(_) => Err(Error::new(ErrorKind::Conflict)),
        }
    }

    /// Best-effort logout: if the request's cookie names a session, that
    /// session is deleted; in every case the call succeeds.
    pub fn logout(&mut self, cookie_header: Option<&str>)
        requires
            old(self).wf(),
        ensures
            final(self).wf(),
            final(self).same_config(old(self)),
            final(self).links_view() == old(self).links_view(),
            final(self).pkce_view() == old(self).pkce_view(),
            final(self).sessions_view() == logout_map(
                old(self).sessions_view(),
                old(self).secret_spec(),
                header_view(cookie_header),
            ),
    {
        let header = match cookie_header {
            None => {
                return ;
            },
            Some(h) => h,
        };
        let hb = str_bytes(header);
        let name = str_bytes(crate::session::SESSION_COOKIE_NAME);
        let tok = match cookie_lookup(&hb, &name) {
            None => {
                return ;
            },
            Some(t) => t,
        };
        match verify_token_bytes(&self.secret, tok) {
            Err(_) => (),
            Ok(id) => {
                self.sessions.delete(&id);
            },
        }
    }

    /// The session the request's cookie resolves to, if any; an anonymous
    /// caller gets `None`, never an error.
    pub fn current_user(&self, cookie_header: Option<&str>) -> (r: Option<UserData>)
        requires
            self.wf(),
        ensures
            r matches Some(u) ==> resolve_outcome(
                self.sessions_view(),
                self.secret_spec(),
                header_view(cookie_header),
            ) == Ok::<UserDataModel, ErrorKind>(u.model()),
            r is None ==> resolve_outcome(
                self.sessions_view(),
                self.secret_spec(),
                header_view(cookie_header),
            ) is Err,
    {
        match get_session_from_cookie(&self.sessions, &self.secret, cookie_header) {
            Ok(u) => Some(u),
            Err(_) => None,
        }
    }

    /// Opportunistic maintenance: sweeps expired and spent links out of
    /// the link store. Best-effort hygiene — dead links are rejected at
    /// read time whether or not they were purged — so callers run it on a
    /// small fraction of link creations.
    pub fn purge_links(&mut self, now_ms: u64)
        requires
            old(self).wf(),
        ensures
            final(self).wf(),
            final(self).same_config(old(self)),
            final(self).sessions_view() == old(self).sessions_view(),
            final(self).pkce_view() == old(self).pkce_view(),
            final(self).links_view() == purged(old(self).links_view(), now_ms),
    {
        self.links.purge_expired(now_ms);
    }

    /// Hands the provisioning links out as plain records, one per
    /// identifier, for a caller that persists them; `import_link` reads
    /// them back.
    pub fn export_links(&self) -> (r: Vec<ProvisionLink>)
        requires
            self.wf(),
        ensures
            forall|i: int| 0 <= i < r@.len() ==> (#[trigger] r@[i]).wf()
                && self.links_view().dom().contains(r@[i].id_spec()) && self.links_view()[r@[
                i
            ].id_spec()] == r@[i].model(),
            forall|i: int, j: int| 0 <= i < j < r@.len() ==> r@[i].id_spec() != r@[j].id_spec(),
            forall|k: Seq<u8>| #[trigger] self.links_view().dom().contains(k) ==> exists|i: int|
                0 <= i < r@.len() && (#[trigger] r@[i]).id_spec() == k,
    {
        self.links.export()
    }

    /// Hands the sessions out as plain records, one per identifier, for a
    /// caller that persists them; `import_session` reads them back.
    pub fn export_sessions(&self) -> (r: Vec<Session>)
        requires
            self.wf(),
        ensures
            forall|i: int| 0 <= i < r@.len() ==> (#[trigger] r@[i]).wf()
                && self.sessions_view().dom().contains(r@[i].id_spec()) && self.sessions_view()[r@[
                i
            ].id_spec()] == r@[i].model(),
            forall|i: int, j: int| 0 <= i < j < r@.len() ==> r@[i].id_spec() != r@[j].id_spec(),
            forall|k: Seq<u8>| #[trigger] self.sessions_view().dom().contains(k) ==> exists|i: int|
                0 <= i < r@.len() && (#[trigger] r@[i]).id_spec() == k,
    {
        self.sessions.export()
    }

    /// Reads one persisted link back into the store.
    pub fn import_link(&mut self, link: ProvisionLink) -> (r: Result<(), Error>)
        requires
            old(self).wf(),
            link.wf(),
        ensures
            final(self).wf(),
            final(self).same_config(old(self)),
            final(self).sessions_view() == old(self).sessions_view(),
            final(self).pkce_view() == old(self).pkce_view(),
            r is Ok <==> !old(self).links_view().dom().contains(link.id_spec()),
            r is Ok ==> final(self).links_view() == old(self).links_view().insert(
                link.id_spec(),
                link.model(),
            ),
            r matches Err(e) ==> e.kind == ErrorKind::Conflict && final(self).links_view() == old(
                self,
            ).links_view(),
    {
        self.links.insert(link)
    }

    /// Reads one persisted session back into the store.
    pub fn import_session(&mut self, session: Session) -> (r: Result<(), Error>)
        requires
            old(self).wf(),
            session.wf(),
        ensures
            final(self).wf(),
            final(self).same_config(old(self)),
            final(self).links_view() == old(self).links_view(),
            final(self).pkce_view() == old(self).pkce_view(),
            r is Ok <==> !old(self).sessions_view().dom().contains(session.id_spec()),
            r is Ok ==> final(self).sessions_view() == old(self).sessions_view().insert(
                session.id_spec(),
                session.model(),
            ),
            r matches Err(e) ==> e.kind == ErrorKind::Conflict && final(self).sessions_view()
                == old(self).sessions_view(),
    {
        self.sessions.insert(session)
    }

    /// The admin gate over this service's stores and configuration.
    pub fn require_admin(&self, cookie_header: Option<&str>) -> (r: Result<UserData, Error>)
        requires
            self.wf(),
        ensures
            r matches Ok(u) ==> admin_outcome(
                self.sessions_view(),
                self.secret_spec(),
                header_view(cookie_header),
                self.admin_group_spec(),
            ) == Ok::<UserDataModel, ErrorKind>(u.model()),
            r matches Err(e) ==> admin_outcome(
                self.sessions_view(),
                self.secret_spec(),
                header_view(cookie_header),
                self.admin_group_spec(),
            ) == Err::<UserDataModel, ErrorKind>(e.kind),
    {
        require_admin_session(&self.sessions, &self.secret, self.admin_group.as_str(), cookie_header)
    }
}

/// A link just minted always verifies: the fresh token decodes back to the
/// new record, the record is live, and it still reports its full bound.
pub proof fn lemma_generate_then_verify(
    m: Map<Seq<u8>, LinkModel>,
    secret: Seq<u8>,
    id: Seq<u8>,
    l: LinkModel,
    tb: Seq<u8>,
    now_ms: u64,
)
    requires
        is_signed_token(secret, tb, id),
        l.use_count == 0,
        now_ms < l.expires_at_ms,
        l.max_uses matches Some(mx) ==> mx > 0,
    ensures
        verify_provision_outcome(m.insert(id, l), secret, tb, now_ms) == Ok::<
            LinkModel,
            ErrorKind,
        >(l),
        remaining_of(l) == l.max_uses,
{
    lemma_sign_verify_round_trip(secret, tb, id);
    lemma_fresh_link_verifies(m, id, l, now_ms);
}

} // verus!
