//! Provisioning links: records with an expiry, an optional use bound and a
//! use count, kept in a store whose consume operation is a single guarded
//! increment. The spec-level transition functions (`link_check`,
//! `consume_map`, `rollback_map`) pin down every operation, and the proof
//! functions at the end state the lifecycle laws over them.

use vstd::prelude::*;
use vstd::utf8::encode_utf8;

use crate::codec::is_signed_token;
use crate::codec::sign_token;
use crate::errors::Error;
use crate::errors::ErrorKind;
use crate::storage::AssocVec;
use crate::storage::Keyed;
use crate::strutil::copy_bytes;
use crate::strutil::copy_strings;
use crate::uid::creation_ms_of;
use crate::uid::Uid;

verus! {

/// A signed provisioning token, as handed out in a URL.
pub struct ProvisionToken {
    token: String,
}

impl View for ProvisionToken {
    type V = Seq<char>;

    closed spec fn view(&self) -> Seq<char> {
        self.token@
    }
}

impl ProvisionToken {
    /// Wraps a token string.
    pub fn new(token: String) -> (r: Self)
        ensures
            r@ == token@,
    {
        Self { token }
    }

    /// The token string.
    pub fn as_str(&self) -> (r: &str)
        ensures
            r@ == self@,
    {
        self.token.as_str()
    }
}

/// The abstract state of one provisioning link.
pub ghost struct LinkModel {
    /// The instant the link stops being valid, in milliseconds since the
    /// Unix epoch.
    pub expires_at_ms: u64,
    /// The redemption bound; `None` means unlimited.
    pub max_uses: Option<u32>,
    /// How many redemptions have been consumed and not rolled back.
    pub use_count: u32,
    /// The groups a provisioned account is to be added to.
    pub groups: Seq<Seq<char>>,
}

/// How many uses remain under the bound, if there is one.
pub open spec fn remaining_of(l: LinkModel) -> Option<u32> {
    match l.max_uses {
        Some(mx) => if l.use_count <= mx {
            Some((mx - l.use_count) as u32)
        } else {
            Some(0u32)
        },
        None => None,
    }
}

/// A link counts as spent when its bound is reached — or, with no bound,
/// when its counter would no longer be representable.
pub open spec fn exhausted_model(l: LinkModel) -> bool {
    ||| (l.max_uses matches Some(mx) && l.use_count >= mx)
    ||| l.use_count == u32::MAX
}

/// The same link with one more use consumed.
pub open spec fn bumped(l: LinkModel) -> LinkModel {
    LinkModel {
        expires_at_ms: l.expires_at_ms,
        max_uses: l.max_uses,
        use_count: (l.use_count + 1) as u32,
        groups: l.groups,
    }
}

/// The same link with one use given back.
pub open spec fn unbumped(l: LinkModel) -> LinkModel {
    LinkModel {
        expires_at_ms: l.expires_at_ms,
        max_uses: l.max_uses,
        use_count: (l.use_count - 1) as u32,
        groups: l.groups,
    }
}

/// The read-only validity check: absent, expired and spent links fail with
/// their own error kinds, in that order; a live link is returned as it is.
pub open spec fn link_check(m: Map<Seq<u8>, LinkModel>, id: Seq<u8>, now_ms: u64) -> Result<
    LinkModel,
    ErrorKind,
> {
    if !m.dom().contains(id) {
        Err(ErrorKind::NotFound)
    } else if now_ms >= m[id].expires_at_ms {
        Err(ErrorKind::Expired)
    } else if exhausted_model(m[id]) {
        Err(ErrorKind::Exhausted)
    } else {
        Ok(m[id])
    }
}

/// What a consume returns: the post-increment record, or the check's error.
pub open spec fn consume_result(m: Map<Seq<u8>, LinkModel>, id: Seq<u8>, now_ms: u64) -> Result<
    LinkModel,
    ErrorKind,
> {
    match link_check(m, id, now_ms) {
        Ok(l) => Ok(bumped(l)),
        Err(e) => Err(e),
    }
}

/// The store after a consume: the guarded increment happened exactly when
/// the check passed; a failed consume changes nothing.
pub open spec fn consume_map(m: Map<Seq<u8>, LinkModel>, id: Seq<u8>, now_ms: u64) -> Map<
    Seq<u8>,
    LinkModel,
> {
    if link_check(m, id, now_ms) is Ok {
        m.insert(id, bumped(m[id]))
    } else {
        m
    }
}

/// The store after a rollback: one use given back, floored at zero; a
/// missing record is left alone.
pub open spec fn rollback_map(m: Map<Seq<u8>, LinkModel>, id: Seq<u8>) -> Map<Seq<u8>, LinkModel> {
    if m.dom().contains(id) && m[id].use_count > 0 {
        m.insert(id, unbumped(m[id]))
    } else {
        m
    }
}

/// One provisioning link record.
pub struct ProvisionLink {
    id: Uid,
    expires_at_ms: u64,
    max_uses: Option<u32>,
    use_count: u32,
    groups: Vec<String>,
}

impl Keyed for ProvisionLink {
    closed spec fn key(&self) -> Seq<u8> {
        self.id@
    }

    fn has_key(&self, k: &Vec<u8>) -> (r: bool) {
        crate::strutil::bytes_eq(self.id.as_bytes(), k)
    }

    fn key_bytes(&self) -> (r: Vec<u8>) {
        copy_bytes(self.id.as_bytes())
    }
}

impl ProvisionLink {
    /// The identifier's bytes.
    pub open spec fn id_spec(&self) -> Seq<u8> {
        self.key()
    }

    /// The record's abstract state.
    pub closed spec fn model(&self) -> LinkModel {
        LinkModel {
            expires_at_ms: self.expires_at_ms,
            max_uses: self.max_uses,
            use_count: self.use_count,
            groups: self.groups.deep_view(),
        }
    }

    /// A record is well formed when its identifier is and its count
    /// respects its bound.
    pub open spec fn wf(&self) -> bool {
        &&& self.id_spec().len() == 16
        &&& (self.model().max_uses matches Some(mx) ==> self.model().use_count <= mx)
    }

    /// A fresh link under a fresh identifier: it expires `duration_ms`
    /// after the creation instant the identifier carries, and starts with
    /// no uses consumed.
    pub fn new(duration_ms: u64, max_uses: Option<u32>, groups: Vec<String>) -> (r: Self)
        requires
            duration_ms <= u64::MAX - 0xFFFF_FFFF_FFFF,
        ensures
            r.wf(),
            r.model() == (LinkModel {
                expires_at_ms: (creation_ms_of(r.id_spec()) + duration_ms) as u64,
                max_uses: max_uses,
                use_count: 0u32,
                groups: groups.deep_view(),
            }),
    {
        Self::with_id(Uid::fresh(), duration_ms, max_uses, groups)
    }

    /// A fresh link for a given identifier; the deterministic constructor.
    /// The duration bound keeps the expiry arithmetic within `u64`.
    pub fn with_id(id: Uid, duration_ms: u64, max_uses: Option<u32>, groups: Vec<String>) -> (r: Self)
        requires
            id.wf(),
            duration_ms <= u64::MAX - 0xFFFF_FFFF_FFFF,
        ensures
            r.wf(),
            r.id_spec() == id@,
            r.model() == (LinkModel {
                expires_at_ms: (creation_ms_of(id@) + duration_ms) as u64,
                max_uses: max_uses,
                use_count: 0u32,
                groups: groups.deep_view(),
            }),
    {
        let created = id.creation_ms();
        Self { id, expires_at_ms: created + duration_ms, max_uses, use_count: 0, groups }
    }

    /// Rebuilds a record from its plain parts, as read back from storage;
    /// refused when the parts do not form a well-formed record.
    pub fn restore(
        id: Uid,
        expires_at_ms: u64,
        max_uses: Option<u32>,
        use_count: u32,
        groups: Vec<String>,
    ) -> (r: Option<Self>)
        ensures
            r is Some <==> id@.len() == 16 && (max_uses matches Some(mx) ==> use_count <= mx),
            r matches Some(l) ==> l.wf() && l.id_spec() == id@ && l.model() == (LinkModel {
                expires_at_ms,
                max_uses,
                use_count,
                groups: groups.deep_view(),
            }),
    {
        let bound_ok = match max_uses {
            Some(mx) => use_count <= mx,
            None => true,
        };
        if id.as_bytes().len() == 16 && bound_ok {
            Some(Self { id, expires_at_ms, max_uses, use_count, groups })
        } else {
            None
        }
    }

    /// The identifier.
    pub fn id(&self) -> (r: &Uid)
        ensures
            r@ == self.id_spec(),
    {
        &self.id
    }

    /// The expiry instant.
    pub fn expires_at_ms(&self) -> (r: u64)
        ensures
            r == self.model().expires_at_ms,
    {
        self.expires_at_ms
    }

    /// The redemption bound.
    pub fn max_uses(&self) -> (r: Option<u32>)
        ensures
            r == self.model().max_uses,
    {
        self.max_uses
    }

    /// The consumed use count.
    pub fn use_count(&self) -> (r: u32)
        ensures
            r == self.model().use_count,
    {
        self.use_count
    }

    /// The target groups.
    pub fn groups(&self) -> (r: &Vec<String>)
        ensures
            r.deep_view() == self.model().groups,
    {
        &self.groups
    }

    /// How many uses remain under the bound, if there is one.
    pub fn uses_remaining(&self) -> (r: Option<u32>)
        ensures
            r == remaining_of(self.model()),
    {
        match self.max_uses {
            Some(mx) => if self.use_count <= mx {
                Some(mx - self.use_count)
            } else {
                Some(0)
            },
            None => None,
        }
    }

    /// Whether the link's expiry instant has passed at `now_ms`.
    pub fn is_expired(&self, now_ms: u64) -> (r: bool)
        ensures
            r == (now_ms >= self.model().expires_at_ms),
    {
        now_ms >= self.expires_at_ms
    }

    /// Whether the link counts as spent.
    pub fn is_exhausted(&self) -> (r: bool)
        ensures
            r == exhausted_model(self.model()),
    {
        match self.max_uses {
            Some(mx) => self.use_count >= mx || self.use_count == u32::MAX,
            None => self.use_count == u32::MAX,
        }
    }

    /// The read-only validity check on this record alone: expired and
    /// spent links fail with their error kinds, in that order.
    pub fn verify(&self, now_ms: u64) -> (r: Result<(), Error>)
        ensures
            r is Ok <==> now_ms < self.model().expires_at_ms && !exhausted_model(self.model()),
            r matches Err(e) ==> e.kind == (if now_ms >= self.model().expires_at_ms {
                ErrorKind::Expired
            } else {
                ErrorKind::Exhausted
            }),
    {
        if self.is_expired(now_ms) {
            Err(Error::new(ErrorKind::Expired))
        } else if self.is_exhausted() {
            Err(Error::new(ErrorKind::Exhausted))
        } else {
            Ok(())
        }
    }

    /// The signed token that names this link.
    pub fn as_token(&self, secret: &Vec<u8>) -> (r: ProvisionToken)
        requires
            self.wf(),
        ensures
            is_signed_token(secret@, encode_utf8(r@), self.id_spec()),
            r@ == crate::strutil::chars_of_ascii(
                crate::codec::token_bytes_of(secret@, self.id_spec()),
            ),
    {
        ProvisionToken::new(sign_token(secret, &self.id))
    }

    /// A fresh copy of the record.
    pub fn dup(&self) -> (r: Self)
        ensures
            r.id_spec() == self.id_spec(),
            r.model() == self.model(),
    {
        let r = Self {
            id: self.id.dup(),
            expires_at_ms: self.expires_at_ms,
            max_uses: self.max_uses,
            use_count: self.use_count,
            groups: copy_strings(&self.groups),
        };
        proof {
            assert(r.groups.deep_view() =~= self.groups.deep_view());
        }
        r
    }
}

/// The store of provisioning links, seen as a map from identifier bytes to
/// link state.
pub struct LinkStore {
    inner: AssocVec<ProvisionLink>,
}

impl View for LinkStore {
    type V = Map<Seq<u8>, LinkModel>;

    closed spec fn view(&self) -> Map<Seq<u8>, LinkModel> {
        self.inner@.map_values(|l: ProvisionLink| l.model())
    }
}

impl LinkStore {
    /// Every entry is well formed and filed under its own identifier.
    pub closed spec fn wf(&self) -> bool {
        &&& self.inner.wf()
        &&& forall|k: Seq<u8>| self.inner@.dom().contains(k) ==> (#[trigger] self.inner@[k]).wf()
            && self.inner@[k].key() == k
    }

    /// An empty store.
    pub fn new() -> (r: Self)
        ensures
            r.wf(),
            r@ == Map::<Seq<u8>, LinkModel>::empty(),
    {
        let r = LinkStore { inner: AssocVec::new() };
        proof {
            assert(r@ =~= Map::<Seq<u8>, LinkModel>::empty());
        }
        r
    }

    /// Files a fresh link; an identifier already on file is a conflict and
    /// changes nothing.
    pub fn insert(&mut self, link: ProvisionLink) -> (r: Result<(), Error>)
        requires
            old(self).wf(),
            link.wf(),
        ensures
            final(self).wf(),
            r is Ok <==> !old(self)@.dom().contains(link.id_spec()),
            r is Ok ==> final(self)@ == old(self)@.insert(link.id_spec(), link.model()),
            r matches Err(e) ==> e.kind == ErrorKind::Conflict && final(self)@ == old(self)@,
    {
        let ghost k = link.id_spec();
        let ghost mdl = link.model();
        proof {
            self.inner.lemma_view_key_contains(k);
        }
        if self.inner.try_insert(link) {
            proof {
                assert(self@ =~= old(self)@.insert(k, mdl));
            }
            Ok(())
        } else {
            Err(Error::new(ErrorKind::Conflict))
        }
    }

    /// The link on file for `id`, if any.
    pub fn find(&self, id: &Uid) -> (r: Option<&ProvisionLink>)
        requires
            self.wf(),
        ensures
            r matches Some(l) ==> self@.dom().contains(id@) && l.model() == self@[id@]
                && l.id_spec() == id@ && l.wf(),
            r is None ==> !self@.dom().contains(id@),
    {
        proof {
            self.inner.lemma_view_key_contains(id@);
        }
        let idv = copy_bytes(id.as_bytes());
        self.inner.get(&idv)
    }

    /// Hands every link out as a plain record, one per identifier — what a
    /// caller needs to persist the store; `restore` and `insert` read them
    /// back in.
    pub fn export(&self) -> (r: Vec<ProvisionLink>)
        requires
            self.wf(),
        ensures
            forall|i: int| 0 <= i < r@.len() ==> (#[trigger] r@[i]).wf() && self@.dom().contains(
                r@[i].id_spec(),
            ) && self@[r@[i].id_spec()] == r@[i].model(),
            forall|i: int, j: int| 0 <= i < j < r@.len() ==> r@[i].id_spec() != r@[j].id_spec(),
            forall|k: Seq<u8>| #[trigger] self@.dom().contains(k) ==> exists|i: int|
                0 <= i < r@.len() && (#[trigger] r@[i]).id_spec() == k,
    {
        let refs = self.inner.entries_ref();
        let mut out: Vec<ProvisionLink> = Vec::new();
        let mut i: usize = 0;
        while i < refs.len()
            invariant
                self.wf(),
                i <= refs@.len(),
                out@.len() == i,
                forall|m: int| 0 <= m < refs@.len() ==> self.inner@.dom().contains(
                    (#[trigger] refs@[m]).key(),
                ) && self.inner@[refs@[m].key()] == *refs@[m],
                forall|m: int, n: int| 0 <= m < n < refs@.len() ==> refs@[m].key()
                    != refs@[n].key(),
                forall|m: int| 0 <= m < i ==> (#[trigger] out@[m]).id_spec() == refs@[m].key()
                    && out@[m].model() == refs@[m].model() && out@[m].wf(),
            decreases refs@.len() - i,
        {
            out.push(refs[i].dup());
            i = i + 1;
        }
        proof {
            assert forall|k: Seq<u8>| #[trigger] self@.dom().contains(k) implies exists|i: int|
                0 <= i < out@.len() && (#[trigger] out@[i]).id_spec() == k by {
                assert(self.inner@.dom().contains(k));
                let j = choose|j: int| 0 <= j < refs@.len() && (#[trigger] refs@[j]).key() == k;
                assert(out@[j].id_spec() == k);
            }
        }
        out
    }

    /// Consumes one use of the link: a single guarded increment. Succeeds
    /// exactly when the link is on file, unexpired and unspent, and then
    /// returns the post-increment record; every failure leaves the store
    /// unchanged.
    pub fn consume(&mut self, id: &Uid, now_ms: u64) -> (r: Result<ProvisionLink, Error>)
        requires
            old(self).wf(),
        ensures
            final(self).wf(),
            final(self)@ == consume_map(old(self)@, id@, now_ms),
            r matches Ok(l) ==> (consume_result(old(self)@, id@, now_ms) matches Ok(mdl)
                && l.model() == mdl && l.id_spec() == id@ && l.wf()),
            r matches Err(e) ==> (consume_result(old(self)@, id@, now_ms) matches Err(k) && e.kind
                == k),
    {
        let idv = copy_bytes(id.as_bytes());
        proof {
            self.inner.lemma_view_key_contains(id@);
        }
        match self.inner.get(&idv) {
            None => {
                return Err(Error::new(ErrorKind::NotFound));
            },
            Some(l) => {
                if l.is_expired(now_ms) {
                    return Err(Error::new(ErrorKind::Expired));
                }
                if l.is_exhausted() {
                    return Err(Error::new(ErrorKind::Exhausted));
                }
            },
        }
        let mut link = self.inner.take(&idv).unwrap();
        link.use_count = link.use_count + 1;
        let snapshot = link.dup();
        proof {
            assert(link.model() == bumped(old(self)@[id@]));
        }
        self.inner.put(link);
        proof {
            assert(self@ =~= consume_map(old(self)@, id@, now_ms));
        }
        Ok(snapshot)
    }

    /// Gives one consumed use back, floored at zero; a missing record is
    /// left alone. The compensating half of a failed completion.
    pub fn decrement(&mut self, id: &Uid)
        requires
            old(self).wf(),
        ensures
            final(self).wf(),
            final(self)@ == rollback_map(old(self)@, id@),
    {
        let idv = copy_bytes(id.as_bytes());
        proof {
            self.inner.lemma_view_key_contains(id@);
        }
        let present_positive = match self.inner.get(&idv) {
            Some(l) => l.use_count() > 0,
            None => false,
        };
        if !present_positive {
            return ;
        }
        let mut link = self.inner.take(&idv).unwrap();
        link.use_count = link.use_count - 1;
        proof {
            assert(link.model() == unbumped(old(self)@[id@]));
        }
        self.inner.put(link);
        proof {
            assert(self@ =~= rollback_map(old(self)@, id@));
        }
    }

    /// Removes the link from the store, if it is there.
    pub fn delete(&mut self, id: &Uid)
        requires
            old(self).wf(),
        ensures
            final(self).wf(),
            final(self)@ == old(self)@.remove(id@),
    {
        let idv = copy_bytes(id.as_bytes());
        proof {
            self.inner.lemma_view_key_contains(id@);
        }
        let taken = self.inner.take(&idv);
        proof {
            if taken is None {
                assert(self@ =~= old(self)@.remove(id@));
            } else {
                assert(self@ =~= old(self)@.remove(id@));
            }
        }
    }
}

/// The store with every dead link swept out: only records that are
/// neither expired nor spent at `now_ms` remain.
pub open spec fn purged(m: Map<Seq<u8>, LinkModel>, now_ms: u64) -> Map<Seq<u8>, LinkModel> {
    Map::new(
        |k: Seq<u8>| m.dom().contains(k) && now_ms < m[k].expires_at_ms && !exhausted_model(m[k]),
        |k: Seq<u8>| m[k],
    )
}

impl LinkStore {
    /// Opportunistic maintenance: sweeps expired and spent links out of the
    /// store. Best-effort hygiene — dead links are rejected at read time
    /// whether or not they were purged.
    pub fn purge_expired(&mut self, now_ms: u64)
        requires
            old(self).wf(),
        ensures
            final(self).wf(),
            final(self)@ == purged(old(self)@, now_ms),
    {
        let ghost m0 = self.inner@;
        let mut keep: Vec<ProvisionLink> = Vec::new();
        proof {
            self.inner.lemma_view_finite();
        }
        loop
            invariant
                self.inner.wf(),
                self.inner@.dom().finite(),
                forall|k: Seq<u8>| #[trigger] self.inner@.dom().contains(k) ==> m0.dom().contains(
                    k,
                ) && m0[k] == self.inner@[k],
                forall|i: int| 0 <= i < keep@.len() ==> {
                    let e = #[trigger] keep@[i];
                    m0.dom().contains(e.key()) && m0[e.key()] == e && now_ms
                        < e.model().expires_at_ms && !exhausted_model(e.model())
                        && !self.inner@.dom().contains(e.key())
                },
                forall|i: int, j: int| 0 <= i < j < keep@.len() ==> keep@[i].key() != keep@[j].key(),
                forall|k: Seq<u8>| m0.dom().contains(k) && now_ms < (#[trigger] m0[k]).model().expires_at_ms
                    && !exhausted_model(m0[k].model()) ==> self.inner@.dom().contains(k) || exists|i: int|
                    0 <= i < keep@.len() && (#[trigger] keep@[i]).key() == k,
            ensures
                self.inner.wf(),
                self.inner@ == Map::<Seq<u8>, ProvisionLink>::empty(),
                forall|i: int| 0 <= i < keep@.len() ==> {
                    let e = #[trigger] keep@[i];
                    m0.dom().contains(e.key()) && m0[e.key()] == e && now_ms
                        < e.model().expires_at_ms && !exhausted_model(e.model())
                },
                forall|i: int, j: int| 0 <= i < j < keep@.len() ==> keep@[i].key() != keep@[j].key(),
                forall|k: Seq<u8>| m0.dom().contains(k) && now_ms < (#[trigger] m0[k]).model().expires_at_ms
                    && !exhausted_model(m0[k].model()) ==> exists|i: int| 0 <= i < keep@.len() && (
                #[trigger] keep@[i]).key() == k,
            decreases self.inner@.dom().len(),
        {
            let ghost pre = self.inner@;
            let ghost pre_keep = keep@;
            let popped = self.inner.pop();
            if popped.is_none() {
                break ;
            }
            let e = popped.unwrap();
            let ghost e_snap = e;
            let live = !e.is_expired(now_ms) && !e.is_exhausted();
            if live {
                keep.push(e);
            }
            proof {
                assert(e_snap == pre[e_snap.key()] && m0.dom().contains(e_snap.key())
                    && m0[e_snap.key()] == e_snap);
                assert forall|k: Seq<u8>| #[trigger] self.inner@.dom().contains(k) implies m0.dom()
                    .contains(k) && m0[k] == self.inner@[k] by {
                    assert(pre.dom().contains(k));
                    assert(pre[k] == self.inner@[k]);
                }
                assert forall|k: Seq<u8>|
                    m0.dom().contains(k) && now_ms < (#[trigger] m0[k]).model().expires_at_ms
                        && !exhausted_model(m0[k].model()) implies self.inner@.dom().contains(k)
                    || exists|i: int|
                    0 <= i < keep@.len() && (#[trigger] keep@[i]).key() == k by {
                    if k == e_snap.key() {
                        assert(keep@[keep@.len() - 1].key() == k);
                    } else {
                        if pre.dom().contains(k) {
                            assert(self.inner@.dom().contains(k));
                        } else if exists|i: int|
                            0 <= i < pre_keep.len() && (#[trigger] pre_keep[i]).key() == k {
                            let i = choose|i: int|
                                0 <= i < pre_keep.len() && (#[trigger] pre_keep[i]).key() == k;
                            assert(keep@[i].key() == k);
                        }
                    }
                }
                self.inner.lemma_view_finite();
            }
        }
        while keep.len() > 0
            invariant
                self.inner.wf(),
                forall|i: int| 0 <= i < keep@.len() ==> {
                    let e = #[trigger] keep@[i];
                    m0.dom().contains(e.key()) && m0[e.key()] == e && now_ms
                        < e.model().expires_at_ms && !exhausted_model(e.model())
                        && !self.inner@.dom().contains(e.key())
                },
                forall|i: int, j: int| 0 <= i < j < keep@.len() ==> keep@[i].key() != keep@[j].key(),
                forall|k: Seq<u8>| #[trigger] self.inner@.dom().contains(k) ==> m0.dom().contains(
                    k,
                ) && m0[k] == self.inner@[k] && now_ms < m0[k].model().expires_at_ms
                    && !exhausted_model(m0[k].model()),
                forall|k: Seq<u8>| m0.dom().contains(k) && now_ms < (#[trigger] m0[k]).model().expires_at_ms
                    && !exhausted_model(m0[k].model()) ==> self.inner@.dom().contains(k) || exists|i: int|
                    0 <= i < keep@.len() && (#[trigger] keep@[i]).key() == k,
            decreases keep@.len(),
        {
            let ghost pre = self.inner@;
            let ghost pre_keep = keep@;
            let e = keep.pop().unwrap();
            proof {
                assert(e == pre_keep[pre_keep.len() - 1]);
                assert(!pre.dom().contains(e.key()));
                assert(m0.dom().contains(e.key()) && m0[e.key()] == e);
            }
            self.inner.put(e);
            proof {
                assert forall|k: Seq<u8>| #[trigger] self.inner@.dom().contains(k) implies m0.dom()
                    .contains(k) && m0[k] == self.inner@[k] && now_ms < m0[k].model().expires_at_ms
                    && !exhausted_model(m0[k].model()) by {
                    if k != e.key() {
                        assert(pre.dom().contains(k));
                        assert(pre[k] == self.inner@[k]);
                    } else {
                        assert(self.inner@[k] == e);
                    }
                }
                assert forall|k: Seq<u8>|
                    m0.dom().contains(k) && now_ms < (#[trigger] m0[k]).model().expires_at_ms
                        && !exhausted_model(m0[k].model()) implies self.inner@.dom().contains(k)
                    || exists|i: int|
                    0 <= i < keep@.len() && (#[trigger] keep@[i]).key() == k by {
                    if k != e.key() && !pre.dom().contains(k) {
                        let i = choose|i: int|
                            0 <= i < pre_keep.len() && (#[trigger] pre_keep[i]).key() == k;
                        assert(i < pre_keep.len() - 1);
                        assert(keep@[i].key() == k);
                    }
                }
            }
        }
        proof {
            assert(self@ =~= purged(old(self)@, now_ms));
        }
    }
}

/// A spent single-use link never yields another success, whatever times
/// the attempts carry: the count stays at or above the bound.
pub proof fn lemma_spent_link_stays_spent(
    m: Map<Seq<u8>, LinkModel>,
    id: Seq<u8>,
    times: Seq<u64>,
)
    requires
        m.dom().contains(id),
        exhausted_model(m[id]),
    ensures
        successes(m, id, times) == 0,
        consume_seq(m, id, times) == m,
    decreases times.len(),
{
    if times.len() > 0 {
        lemma_spent_link_stays_spent(m, id, times.drop_first());
    }
}

/// The number of successful consumes in a sequence of attempts.
pub open spec fn successes(m: Map<Seq<u8>, LinkModel>, id: Seq<u8>, times: Seq<u64>) -> int
    decreases times.len(),
{
    if times.len() == 0 {
        0
    } else {
        (if consume_result(m, id, times.first()) is Ok {
            1int
        } else {
            0int
        }) + successes(consume_map(m, id, times.first()), id, times.drop_first())
    }
}

/// The store after a sequence of consume attempts.
pub open spec fn consume_seq(m: Map<Seq<u8>, LinkModel>, id: Seq<u8>, times: Seq<u64>) -> Map<
    Seq<u8>,
    LinkModel,
>
    decreases times.len(),
{
    if times.len() == 0 {
        m
    } else {
        consume_seq(consume_map(m, id, times.first()), id, times.drop_first())
    }
}

/// No double spend: however many consume attempts race on a link with a
/// single-use bound, at most one of them succeeds.
pub proof fn lemma_no_double_spend(m: Map<Seq<u8>, LinkModel>, id: Seq<u8>, times: Seq<u64>)
    requires
        m.dom().contains(id) ==> m[id].max_uses == Some(1u32),
    ensures
        successes(m, id, times) <= 1,
    decreases times.len(),
{
    if times.len() > 0 {
        let m2 = consume_map(m, id, times.first());
        if consume_result(m, id, times.first()) is Ok {
            assert(m2.dom().contains(id) && exhausted_model(m2[id]));
            lemma_spent_link_stays_spent(m2, id, times.drop_first());
        } else {
            assert(m2 == m);
            lemma_no_double_spend(m2, id, times.drop_first());
        }
    }
}

/// Exactly one racer wins: on a fresh single-use link whose attempts all
/// come before the expiry, one consume succeeds and the rest fail.
pub proof fn lemma_exactly_one_winner(m: Map<Seq<u8>, LinkModel>, id: Seq<u8>, times: Seq<u64>)
    requires
        m.dom().contains(id),
        m[id].max_uses == Some(1u32),
        m[id].use_count == 0,
        times.len() >= 1,
        forall|i: int| 0 <= i < times.len() ==> times[i] < m[id].expires_at_ms,
    ensures
        successes(m, id, times) == 1,
{
    assert(consume_result(m, id, times.first()) is Ok);
    let m2 = consume_map(m, id, times.first());
    assert(m2.dom().contains(id) && exhausted_model(m2[id]));
    lemma_spent_link_stays_spent(m2, id, times.drop_first());
}

/// Rolling back a successful consume restores the store exactly: the
/// compensation gives the spent use back.
pub proof fn lemma_consume_then_rollback(m: Map<Seq<u8>, LinkModel>, id: Seq<u8>, now_ms: u64)
    requires
        consume_result(m, id, now_ms) is Ok,
    ensures
        rollback_map(consume_map(m, id, now_ms), id) == m,
{
    let l = m[id];
    let m2 = consume_map(m, id, now_ms);
    assert(m2[id] == bumped(l));
    assert(unbumped(bumped(l)) == l);
    assert(rollback_map(m2, id) =~= m);
}

/// A link past its expiry fails with the expiry error whatever uses
/// remain, and the store does not change.
pub proof fn lemma_expired_link_rejected(m: Map<Seq<u8>, LinkModel>, id: Seq<u8>, now_ms: u64)
    requires
        m.dom().contains(id),
        now_ms >= m[id].expires_at_ms,
    ensures
        link_check(m, id, now_ms) == Err::<LinkModel, ErrorKind>(ErrorKind::Expired),
        consume_result(m, id, now_ms) == Err::<LinkModel, ErrorKind>(ErrorKind::Expired),
        consume_map(m, id, now_ms) == m,
{
}

/// A single use consumes exactly once: the first consume of a fresh
/// single-use link succeeds, and a second attempt before the expiry fails
/// as exhausted.
pub proof fn lemma_single_use_consumes_once(
    m: Map<Seq<u8>, LinkModel>,
    id: Seq<u8>,
    now1: u64,
    now2: u64,
)
    requires
        m.dom().contains(id),
        m[id].max_uses == Some(1u32),
        m[id].use_count == 0,
        now1 < m[id].expires_at_ms,
        now2 < m[id].expires_at_ms,
    ensures
        consume_result(m, id, now1) is Ok,
        consume_result(consume_map(m, id, now1), id, now2) == Err::<LinkModel, ErrorKind>(
            ErrorKind::Exhausted,
        ),
{
}

/// A link just created verifies as live and still reports its full bound:
/// none of its uses are consumed yet.
pub proof fn lemma_fresh_link_verifies(
    m: Map<Seq<u8>, LinkModel>,
    id: Seq<u8>,
    l: LinkModel,
    now_ms: u64,
)
    requires
        l.use_count == 0,
        now_ms < l.expires_at_ms,
        l.max_uses matches Some(mx) ==> mx > 0,
    ensures
        link_check(m.insert(id, l), id, now_ms) == Ok::<LinkModel, ErrorKind>(l),
        remaining_of(l) == l.max_uses,
{
}

} // verus!
