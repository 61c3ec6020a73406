//! Server-side state of the login handshake: each started login files its
//! verifier under the anti-forgery state value, to be taken back exactly
//! once by the callback. Entries older than the login deadline are swept
//! out before a new login is filed, so abandoned logins cannot pile up.

use vstd::prelude::*;
use vstd::utf8::encode_utf8;

use crate::storage::AssocVec;
use crate::storage::Keyed;
use crate::strutil::bytes_eq;
use crate::strutil::str_bytes;

verus! {

/// How long a started login stays redeemable, in milliseconds.
pub const LOGIN_TTL_MS: u64 = 600000;

/// The abstract content of one pending login.
pub ghost struct AttemptModel {
    pub verifier: Seq<char>,
    pub created_ms: u64,
}

/// One pending login: the verifier filed under the state value.
pub struct LoginAttempt {
    state: String,
    verifier: String,
    created_ms: u64,
}

impl Keyed for LoginAttempt {
    closed spec fn key(&self) -> Seq<u8> {
        encode_utf8(self.state@)
    }

    fn has_key(&self, k: &Vec<u8>) -> (r: bool) {
        let sb = str_bytes(self.state.as_str());
        bytes_eq(&sb, k)
    }

    fn key_bytes(&self) -> (r: Vec<u8>) {
        str_bytes(self.state.as_str())
    }
}

impl LoginAttempt {
    /// The pending login's abstract content.
    pub closed spec fn model(&self) -> AttemptModel {
        AttemptModel { verifier: self.verifier@, created_ms: self.created_ms }
    }
}

/// A pending login is still redeemable at `now_ms`.
pub open spec fn live_attempt(a: AttemptModel, now_ms: u64) -> bool {
    a.created_ms + LOGIN_TTL_MS > now_ms
}

/// The cache with every stale entry swept out.
pub open spec fn evicted(m: Map<Seq<u8>, AttemptModel>, now_ms: u64) -> Map<Seq<u8>, AttemptModel> {
    Map::new(|k: Seq<u8>| m.dom().contains(k) && live_attempt(m[k], now_ms), |k: Seq<u8>| m[k])
}

/// Decides liveness without overflowing the sum.
fn is_live(created_ms: u64, now_ms: u64) -> (r: bool)
    ensures
        r == (created_ms + LOGIN_TTL_MS > now_ms),
{
    if created_ms > u64::MAX - LOGIN_TTL_MS {
        true
    } else {
        created_ms + LOGIN_TTL_MS > now_ms
    }
}

/// The pending logins, keyed by the state value's bytes.
pub struct PkceCache {
    inner: AssocVec<LoginAttempt>,
}

impl View for PkceCache {
    type V = Map<Seq<u8>, AttemptModel>;

    closed spec fn view(&self) -> Map<Seq<u8>, AttemptModel> {
        self.inner@.map_values(|a: LoginAttempt| a.model())
    }
}

impl PkceCache {
    /// The underlying store is well formed.
    pub closed spec fn wf(&self) -> bool {
        self.inner.wf()
    }

    /// An empty cache.
    pub fn new() -> (r: Self)
        ensures
            r.wf(),
            r@ == Map::<Seq<u8>, AttemptModel>::empty(),
    {
        let r = PkceCache { inner: AssocVec::new() };
        proof {
            assert(r@ =~= Map::<Seq<u8>, AttemptModel>::empty());
        }
        r
    }

    /// Files a pending login under its state value, replacing any entry
    /// that value already names.
    pub fn insert(&mut self, state: String, verifier: String, now_ms: u64)
        requires
            old(self).wf(),
        ensures
            final(self).wf(),
            final(self)@ == old(self)@.insert(
                encode_utf8(state@),
                AttemptModel { verifier: verifier@, created_ms: now_ms },
            ),
    {
        let ghost k = encode_utf8(state@);
        let ghost mdl = AttemptModel { verifier: verifier@, created_ms: now_ms };
        self.inner.put(LoginAttempt { state, verifier, created_ms: now_ms });
        proof {
            assert(self@ =~= old(self)@.insert(k, mdl));
        }
    }

    /// Takes the pending login for a state value out of the cache; a miss
    /// means the state is expired, replayed or forged, and the caller
    /// treats it as a hard error.
    pub fn take(&mut self, state: &str) -> (r: Option<String>)
        requires
            old(self).wf(),
        ensures
            final(self).wf(),
            r matches Some(v) ==> old(self)@.dom().contains(encode_utf8(state@)) && v@ == old(
                self,
            )@[encode_utf8(state@)].verifier && final(self)@ == old(self)@.remove(
                encode_utf8(state@),
            ),
            r is None ==> !old(self)@.dom().contains(encode_utf8(state@)) && final(self)@ == old(
                self,
            )@,
    {
        let kb = str_bytes(state);
        match self.inner.take(&kb) {
            Some(a) => {
                proof {
                    assert(self@ =~= old(self)@.remove(encode_utf8(state@)));
                }
                Some(a.verifier)
            },
            None => None,
        }
    }

    /// Sweeps out every entry whose deadline has passed; live entries are
    /// kept exactly as they are.
    pub fn cleanup_old_verifiers(&mut self, now_ms: u64)
        requires
            old(self).wf(),
        ensures
            final(self).wf(),
            final(self)@ == evicted(old(self)@, now_ms),
    {
        let ghost m0 = self.inner@;
        let mut keep: Vec<LoginAttempt> = Vec::new();
        proof {
            self.inner.lemma_view_finite();
        }
        loop
            invariant
                self.inner.wf(),
                self.inner@.dom().finite(),
                forall|k: Seq<u8>| #[trigger] self.inner@.dom().contains(k) ==> m0.dom().contains(
                    k,
                ) && m0[k] == self.inner@[k],
                forall|i: int| 0 <= i < keep@.len() ==> {
                    let e = #[trigger] keep@[i];
                    m0.dom().contains(e.key()) && m0[e.key()] == e && live_attempt(
                        e.model(),
                        now_ms,
                    ) && !self.inner@.dom().contains(e.key())
                },
                forall|i: int, j: int| 0 <= i < j < keep@.len() ==> keep@[i].key() != keep@[j].key(),
                forall|k: Seq<u8>| m0.dom().contains(k) && live_attempt(
                    #[trigger] m0[k].model(),
                    now_ms,
                ) ==> self.inner@.dom().contains(k) || exists|i: int| 0 <= i < keep@.len() && (
                #[trigger] keep@[i]).key() == k,
            ensures
                self.inner.wf(),
                self.inner@ == Map::<Seq<u8>, LoginAttempt>::empty(),
                forall|i: int| 0 <= i < keep@.len() ==> {
                    let e = #[trigger] keep@[i];
                    m0.dom().contains(e.key()) && m0[e.key()] == e && live_attempt(
                        e.model(),
                        now_ms,
                    )
                },
                forall|i: int, j: int| 0 <= i < j < keep@.len() ==> keep@[i].key() != keep@[j].key(),
                forall|k: Seq<u8>| m0.dom().contains(k) && live_attempt(
                    #[trigger] m0[k].model(),
                    now_ms,
                ) ==> exists|i: int| 0 <= i < keep@.len() && (#[trigger] keep@[i]).key() == k,
            decreases self.inner@.dom().len(),
        {
            let ghost pre = self.inner@;
            let ghost pre_keep = keep@;
            let popped = self.inner.pop();
            if popped.is_none() {
                break ;
            }
            let e = popped.unwrap();
            let ghost e_snap = e;
            let live = is_live(e.created_ms, now_ms);
            if live {
                keep.push(e);
            }
            proof {
                assert(e_snap == pre[e_snap.key()] && m0.dom().contains(e_snap.key())
                    && m0[e_snap.key()] == e_snap);
                assert(live == live_attempt(e_snap.model(), now_ms));
                assert forall|k: Seq<u8>| #[trigger] self.inner@.dom().contains(k) implies m0.dom()
                    .contains(k) && m0[k] == self.inner@[k] by {
                    assert(pre.dom().contains(k));
                    assert(pre[k] == self.inner@[k]);
                }
                assert forall|k: Seq<u8>|
                    m0.dom().contains(k) && live_attempt(
                        #[trigger] m0[k].model(),
                        now_ms,
                    ) implies self.inner@.dom().contains(k) || exists|i: int|
                    0 <= i < keep@.len() && (#[trigger] keep@[i]).key() == k by {
                    if k == e_snap.key() {
                        assert(keep@[keep@.len() - 1].key() == k);
                    } else {
                        if pre.dom().contains(k) {
                            assert(self.inner@.dom().contains(k));
                        } else if exists|i: int|
                            0 <= i < pre_keep.len() && (#[trigger] pre_keep[i]).key() == k {
                            let i = choose|i: int|
                                0 <= i < pre_keep.len() && (#[trigger] pre_keep[i]).key() == k;
                            assert(keep@[i].key() == k);
                        }
                    }
                }
                self.inner.lemma_view_finite();
            }
        }
        while keep.len() > 0
            invariant
                self.inner.wf(),
                forall|i: int| 0 <= i < keep@.len() ==> {
                    let e = #[trigger] keep@[i];
                    m0.dom().contains(e.key()) && m0[e.key()] == e && live_attempt(
                        e.model(),
                        now_ms,
                    ) && !self.inner@.dom().contains(e.key())
                },
                forall|i: int, j: int| 0 <= i < j < keep@.len() ==> keep@[i].key() != keep@[j].key(),
                forall|k: Seq<u8>| #[trigger] self.inner@.dom().contains(k) ==> m0.dom().contains(
                    k,
                ) && m0[k] == self.inner@[k] && live_attempt(m0[k].model(), now_ms),
                forall|k: Seq<u8>| m0.dom().contains(k) && live_attempt(
                    #[trigger] m0[k].model(),
                    now_ms,
                ) ==> self.inner@.dom().contains(k) || exists|i: int| 0 <= i < keep@.len() && (
                #[trigger] keep@[i]).key() == k,
            decreases keep@.len(),
        {
            let ghost pre = self.inner@;
            let ghost pre_keep = keep@;
            let e = keep.pop().unwrap();
            proof {
                assert(e == pre_keep[pre_keep.len() - 1]);
                assert(!pre.dom().contains(e.key()));
            }
            proof {
                assert(m0.dom().contains(e.key()) && m0[e.key()] == e && live_attempt(
                    e.model(),
                    now_ms,
                ));
            }
            self.inner.put(e);
            proof {
                assert forall|k: Seq<u8>| #[trigger] self.inner@.dom().contains(k) implies m0.dom()
                    .contains(k) && m0[k] == self.inner@[k] && live_attempt(m0[k].model(), now_ms) by {
                    if k != e.key() {
                        assert(pre.dom().contains(k));
                        assert(pre[k] == self.inner@[k]);
                    } else {
                        assert(self.inner@[k] == e);
                    }
                }
                assert forall|k: Seq<u8>|
                    m0.dom().contains(k) && live_attempt(
                        #[trigger] m0[k].model(),
                        now_ms,
                    ) implies self.inner@.dom().contains(k) || exists|i: int|
                    0 <= i < keep@.len() && (#[trigger] keep@[i]).key() == k by {
                    if k != e.key() && !pre.dom().contains(k) {
                        let i = choose|i: int|
                            0 <= i < pre_keep.len() && (#[trigger] pre_keep[i]).key() == k;
                        assert(i < pre_keep.len() - 1);
                        assert(keep@[i].key() == k);
                    }
                }
            }
        }
        proof {
            assert(self@ =~= evicted(old(self)@, now_ms));
        }
    }
}

} // verus!
