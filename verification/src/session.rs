//! Server-side sessions: identity claims filed under a signed identifier.
//! The cookie a client holds is the signed rendering of the identifier,
//! never the claims themselves.

use vstd::prelude::*;
use vstd::utf8::encode_utf8;

use crate::codec::is_signed_token;
use crate::codec::sign_token;
use crate::codec::verify_outcome;
use crate::codec::verify_token;
use crate::errors::Error;
use crate::errors::ErrorKind;
use crate::storage::AssocVec;
use crate::storage::Keyed;
use crate::strutil::copy_bytes;
use crate::strutil::copy_strings;
use crate::strutil::str_eq;
use crate::uid::Uid;

verus! {

/// The name of the session cookie.
pub const SESSION_COOKIE_NAME: &'static str = "authit_session";

/// Why a session lookup failed.
#[derive(Clone, Copy, Debug, PartialEq, Eq, Structural)]
pub enum SessionError {
    /// The presented token failed verification.
    InvalidSession,
    /// The token was genuine but no session is on file for it.
    NotFound,
}

/// The abstract content of a session's identity claims.
pub ghost struct UserDataModel {
    pub user_id: Seq<char>,
    pub username: Seq<char>,
    pub display_name: Seq<char>,
    pub groups: Seq<Seq<char>>,
    pub access_token: Seq<char>,
}

/// Identity claims carried by a session: who the user is and which groups
/// they belong to, together with the bearer token the provider issued. The
/// bearer token is held server-side only; nothing here renders it to a
/// client.
pub struct UserData {
    pub user_id: String,
    pub username: String,
    pub display_name: String,
    pub groups: Vec<String>,
    pub access_token: String,
}

impl UserData {
    /// The claims' abstract content.
    pub open spec fn model(&self) -> UserDataModel {
        UserDataModel {
            user_id: self.user_id@,
            username: self.username@,
            display_name: self.display_name@,
            groups: self.groups.deep_view(),
            access_token: self.access_token@,
        }
    }

    /// Whether the claims name `group` among their memberships, by exact
    /// string match.
    pub fn is_in_group(&self, group: &str) -> (r: bool)
        ensures
            r == self.model().groups.contains(group@),
    {
        let mut i: usize = 0;
        while i < self.groups.len()
            invariant
                i <= self.groups@.len(),
                forall|j: int| 0 <= j < i ==> self.groups.deep_view()[j] != group@,
            decreases self.groups@.len() - i,
        {
            if str_eq(self.groups[i].as_str(), group) {
                proof {
                    assert(self.model().groups[i as int] == group@);
                }
                return true;
            }
            i = i + 1;
        }
        false
    }

    /// A fresh copy of the claims.
    pub fn dup(&self) -> (r: Self)
        ensures
            r.model() == self.model(),
    {
        let r = UserData {
            user_id: self.user_id.clone(),
            username: self.username.clone(),
            display_name: self.display_name.clone(),
            groups: copy_strings(&self.groups),
            access_token: self.access_token.clone(),
        };
        proof {
            assert(r.groups.deep_view() =~= self.groups.deep_view());
        }
        r
    }
}

/// One authenticated session: claims filed under an identifier.
pub struct Session {
    id: Uid,
    user_data: UserData,
}

impl Keyed for Session {
    closed spec fn key(&self) -> Seq<u8> {
        self.id@
    }

    fn has_key(&self, k: &Vec<u8>) -> (r: bool) {
        crate::strutil::bytes_eq(self.id.as_bytes(), k)
    }

    fn key_bytes(&self) -> (r: Vec<u8>) {
        copy_bytes(self.id.as_bytes())
    }
}

impl Session {
    /// The identifier's bytes.
    pub open spec fn id_spec(&self) -> Seq<u8> {
        self.key()
    }

    /// The session's abstract claims.
    pub closed spec fn model(&self) -> UserDataModel {
        self.user_data.model()
    }

    /// A session is well formed when its identifier is.
    pub open spec fn wf(&self) -> bool {
        self.id_spec().len() == 16
    }

    /// A session holding `user_data`, under a fresh identifier.
    pub fn new(user_data: UserData) -> (r: Self)
        ensures
            r.wf(),
            r.model() == user_data.model(),
    {
        Self::with_id(Uid::fresh(), user_data)
    }

    /// A session for a given identifier; the deterministic constructor.
    pub fn with_id(id: Uid, user_data: UserData) -> (r: Self)
        requires
            id.wf(),
        ensures
            r.wf(),
            r.id_spec() == id@,
            r.model() == user_data.model(),
    {
        Self { id, user_data }
    }

    /// The identifier.
    pub fn id(&self) -> (r: &Uid)
        ensures
            r@ == self.id_spec(),
    {
        &self.id
    }

    /// The identity claims.
    pub fn user_data(&self) -> (r: &UserData)
        ensures
            r.model() == self.model(),
    {
        &self.user_data
    }

    /// A fresh copy of the session.
    pub fn dup(&self) -> (r: Self)
        ensures
            r.id_spec() == self.id_spec(),
            r.model() == self.model(),
    {
        Session { id: self.id.dup(), user_data: self.user_data.dup() }
    }

    /// The signed cookie value that names this session.
    pub fn as_token(&self, secret: &Vec<u8>) -> (r: String)
        requires
            self.wf(),
        ensures
            is_signed_token(secret@, encode_utf8(r@), self.id_spec()),
    {
        sign_token(secret, &self.id)
    }
}

/// The store of sessions, seen as a map from identifier bytes to claims.
pub struct SessionStore {
    inner: AssocVec<Session>,
}

impl View for SessionStore {
    type V = Map<Seq<u8>, UserDataModel>;

    closed spec fn view(&self) -> Map<Seq<u8>, UserDataModel> {
        self.inner@.map_values(|s: Session| s.model())
    }
}

impl SessionStore {
    /// Every entry is well formed and filed under its own identifier.
    pub closed spec fn wf(&self) -> bool {
        &&& self.inner.wf()
        &&& forall|k: Seq<u8>| self.inner@.dom().contains(k) ==> (#[trigger] self.inner@[k]).wf()
            && self.inner@[k].key() == k
    }

    /// An empty store.
    pub fn new() -> (r: Self)
        ensures
            r.wf(),
            r@ == Map::<Seq<u8>, UserDataModel>::empty(),
    {
        let r = SessionStore { inner: AssocVec::new() };
        proof {
            assert(r@ =~= Map::<Seq<u8>, UserDataModel>::empty());
        }
        r
    }

    /// Files a fresh session; an identifier already on file is a conflict
    /// and changes nothing.
    pub fn insert(&mut self, session: Session) -> (r: Result<(), Error>)
        requires
            old(self).wf(),
            session.wf(),
        ensures
            final(self).wf(),
            r is Ok <==> !old(self)@.dom().contains(session.id_spec()),
            r is Ok ==> final(self)@ == old(self)@.insert(session.id_spec(), session.model()),
            r matches Err(e) ==> e.kind == ErrorKind::Conflict && final(self)@ == old(self)@,
    {
        let ghost k = session.id_spec();
        let ghost mdl = session.model();
        proof {
            self.inner.lemma_view_key_contains(k);
        }
        if self.inner.try_insert(session) {
            proof {
                assert(self@ =~= old(self)@.insert(k, mdl));
            }
            Ok(())
        } else {
            Err(Error::new(ErrorKind::Conflict))
        }
    }

    /// Hands every session out as a plain record, one per identifier —
    /// what a caller needs to persist the store; `with_id` and `insert`
    /// read them back in.
    pub fn export(&self) -> (r: Vec<Session>)
        requires
            self.wf(),
        ensures
            forall|i: int| 0 <= i < r@.len() ==> (#[trigger] r@[i]).wf() && self@.dom().contains(
                r@[i].id_spec(),
            ) && self@[r@[i].id_spec()] == r@[i].model(),
            forall|i: int, j: int| 0 <= i < j < r@.len() ==> r@[i].id_spec() != r@[j].id_spec(),
            forall|k: Seq<u8>| #[trigger] self@.dom().contains(k) ==> exists|i: int|
                0 <= i < r@.len() && (#[trigger] r@[i]).id_spec() == k,
    {
        let refs = self.inner.entries_ref();
        let mut out: Vec<Session> = Vec::new();
        let mut i: usize = 0;
        while i < refs.len()
            invariant
                self.wf(),
                i <= refs@.len(),
                out@.len() == i,
                forall|m: int| 0 <= m < refs@.len() ==> self.inner@.dom().contains(
                    (#[trigger] refs@[m]).key(),
                ) && self.inner@[refs@[m].key()] == *refs@[m],
                forall|m: int, n: int| 0 <= m < n < refs@.len() ==> refs@[m].key()
                    != refs@[n].key(),
                forall|m: int| 0 <= m < i ==> (#[trigger] out@[m]).id_spec() == refs@[m].key()
                    && out@[m].model() == refs@[m].model() && out@[m].wf(),
            decreases refs@.len() - i,
        {
            out.push(refs[i].dup());
            i = i + 1;
        }
        proof {
            assert forall|k: Seq<u8>| #[trigger] self@.dom().contains(k) implies exists|i: int|
                0 <= i < out@.len() && (#[trigger] out@[i]).id_spec() == k by {
                assert(self.inner@.dom().contains(k));
                let j = choose|j: int| 0 <= j < refs@.len() && (#[trigger] refs@[j]).key() == k;
                assert(out@[j].id_spec() == k);
            }
        }
        out
    }

    /// The session on file for `id`, if any.
    pub fn find(&self, id: &Uid) -> (r: Option<&Session>)
        requires
            self.wf(),
        ensures
            r matches Some(s) ==> self@.dom().contains(id@) && s.model() == self@[id@]
                && s.id_spec() == id@ && s.wf(),
            r is None ==> !self@.dom().contains(id@),
    {
        proof {
            self.inner.lemma_view_key_contains(id@);
        }
        let idv = copy_bytes(id.as_bytes());
        self.inner.get(&idv)
    }

    /// Resolves a signed cookie value to the session it names: token
    /// verification first, then the lookup.
    pub fn find_token(&self, secret: &Vec<u8>, token: &str) -> (r: Result<&Session, SessionError>)
        requires
            self.wf(),
        ensures
            r matches Ok(s) ==> (verify_outcome(secret@, encode_utf8(token@)) matches Ok(id)
                && self@.dom().contains(id) && s.model() == self@[id] && s.id_spec() == id),
            r matches Err(e) ==> match e {
                SessionError::InvalidSession => verify_outcome(secret@, encode_utf8(token@)) is Err,
                SessionError::NotFound => (verify_outcome(secret@, encode_utf8(token@)) matches Ok(
                    id,
                ) && !self@.dom().contains(id)),
            },
    {
        match verify_token(secret, token) {
            Err(_) => Err(SessionError::InvalidSession),
            Ok(id) => match self.find(&id) {
                Some(s) => Ok(s),
                None => Err(SessionError::NotFound),
            },
        }
    }

    /// Removes the session for `id`, if it is there; absence is not an
    /// error.
    pub fn delete(&mut self, id: &Uid)
        requires
            old(self).wf(),
        ensures
            final(self).wf(),
            final(self)@ == old(self)@.remove(id@),
    {
        let idv = copy_bytes(id.as_bytes());
        proof {
            self.inner.lemma_view_key_contains(id@);
        }
        let taken = self.inner.take(&idv);
        proof {
            assert(self@ =~= old(self)@.remove(id@));
        }
    }

    /// Best-effort logout: if the cookie value names a session, that
    /// session is removed; nothing else changes, and nothing fails.
    pub fn delete_token(&mut self, secret: &Vec<u8>, token: &str)
        requires
            old(self).wf(),
        ensures
            final(self).wf(),
            final(self)@ == match verify_outcome(secret@, encode_utf8(token@)) {
                Ok(id) => old(self)@.remove(id),
                Err(_) => old(self)@,
            },
    {
        match verify_token(secret, token) {
            Err(_) => (),
            Ok(id) => {
                self.delete(&id);
            },
        }
    }
}

} // verus!
