//! The signed token codec: an identifier is rendered as
//! `"{hex}.{base64url(hmac_sha256(secret, hex))}"`, and only that rendering
//! verifies back — to exactly the identifier it was made from. The same
//! codec signs provisioning-link identifiers and session identifiers.

use vstd::prelude::*;
use vstd::utf8::encode_utf8;

use crate::crypto::b64url_decode;
use crate::crypto::b64url_encode;
use crate::crypto::b64url_of;
use crate::crypto::hmac_sha256;
use crate::crypto::hmac_sha256_of;
use crate::errors::TokenError;
use crate::hex::hex_decode;
use crate::hex::hex_encode;
use crate::hex::hex_of;
use crate::hex::lemma_hex_no_dot;
use crate::hex::lemma_hex_of_injective;
use crate::strutil::ascii_to_string;
use crate::strutil::ct_bytes_eq;
use crate::strutil::chars_of_ascii;
use crate::strutil::str_bytes;
use crate::strutil::sub_bytes;
use crate::uid::Uid;

verus! {

/// The byte string a signed token consists of: the identifier's hex form,
/// a dot, and the base64 rendering of the HMAC tag over that hex form.
pub open spec fn token_bytes_of(secret: Seq<u8>, id: Seq<u8>) -> Seq<u8> {
    hex_of(id) + seq![46u8] + b64url_of(hmac_sha256_of(secret, hex_of(id)))
}

/// Position `p` holds the only ASCII dot in `s`.
pub open spec fn sole_dot(s: Seq<u8>, p: int) -> bool {
    &&& 0 <= p < s.len()
    &&& s[p] == 46u8
    &&& forall|j: int| 0 <= j < s.len() && j != p ==> s[j] != 46u8
}

/// `s` splits into exactly two parts around exactly one dot.
pub open spec fn has_sole_dot(s: Seq<u8>) -> bool {
    exists|p: int| sole_dot(s, p)
}

/// The position of the only dot.
pub open spec fn dot_pos(s: Seq<u8>) -> int {
    choose|p: int| sole_dot(s, p)
}

/// `tb` is the one token byte string that signing `id` under `secret`
/// produces (and its tag part happens to contain no dot, so the token
/// splits back apart).
pub open spec fn is_signed_token(secret: Seq<u8>, tb: Seq<u8>, id: Seq<u8>) -> bool {
    &&& id.len() == 16
    &&& tb == token_bytes_of(secret, id)
    &&& has_sole_dot(tb)
}

/// What verification returns for any token byte string: the unique
/// identifier bytes on success, and otherwise the error class of the first
/// check that fails — format, encoding, signature, identifier — in that
/// order.
pub open spec fn verify_outcome(secret: Seq<u8>, tb: Seq<u8>) -> Result<Seq<u8>, TokenError> {
    if !has_sole_dot(tb) {
        Err(TokenError::InvalidFormat)
    } else {
        let head = tb.subrange(0, dot_pos(tb));
        let tail = tb.subrange(dot_pos(tb) + 1, tb.len() as int);
        if !(exists|d: Seq<u8>| tail == b64url_of(d)) {
            Err(TokenError::InvalidEncoding)
        } else if tail != b64url_of(hmac_sha256_of(secret, head)) {
            Err(TokenError::SignatureMismatch)
        } else if !(exists|b: Seq<u8>| b.len() == 16 && head == hex_of(b)) {
            Err(TokenError::InvalidIdentifier)
        } else {
            Ok(choose|b: Seq<u8>| b.len() == 16 && head == hex_of(b))
        }
    }
}

/// Renders an identifier as a signed token string.
pub fn sign_token(secret: &Vec<u8>, id: &Uid) -> (t: String)
    requires
        id.wf(),
    ensures
        is_signed_token(secret@, encode_utf8(t@), id@),
        t@ == chars_of_ascii(token_bytes_of(secret@, id@)),
{
    let hexb = hex_encode(id.as_bytes());
    let mac = hmac_sha256(secret.as_slice(), hexb.as_slice());
    let sig = b64url_encode(mac.as_slice());
    let mut tb = hexb;
    tb.push(46u8);
    let mut i: usize = 0;
    let ghost sig0 = sig@;
    while i < sig.len()
        invariant
            i <= sig@.len(),
            sig@ == sig0,
            tb@ == hex_of(id@) + seq![46u8] + sig0.take(i as int),
        decreases sig@.len() - i,
    {
        tb.push(sig[i]);
        proof {
            assert(hex_of(id@) + seq![46u8] + sig0.take(i as int) + seq![sig0[i as int]] =~= hex_of(
                id@,
            ) + seq![46u8] + sig0.take(i + 1));
        }
        i = i + 1;
    }
    proof {
        assert(sig0.take(sig0.len() as int) =~= sig0);
        assert(tb@ =~= token_bytes_of(secret@, id@));
        lemma_hex_no_dot(id@);
        assert(forall|j: int| 0 <= j < 32 ==> tb@[j] == hex_of(id@)[j]);
        assert(forall|j: int| 32 < j < tb@.len() ==> tb@[j] == sig0[j - 33]);
        assert(sole_dot(tb@, 32));
        assert forall|i: int| 0 <= i < tb@.len() implies tb@[i] < 128 by {
            if i < 32 {
                crate::hex::lemma_hex_ascii(id@, i);
            }
        }
    }
    ascii_to_string(tb)
}

/// Verifies a token string and recovers the identifier it signs. The
/// result is exactly `verify_outcome` of the token's UTF-8 bytes.
pub fn verify_token(secret: &Vec<u8>, token: &str) -> (r: Result<Uid, TokenError>)
    ensures
        r matches Ok(u) ==> u.wf() && verify_outcome(secret@, encode_utf8(token@)) == Ok::<
            Seq<u8>,
            TokenError,
        >(u@),
        r matches Err(e) ==> verify_outcome(secret@, encode_utf8(token@)) == Err::<
            Seq<u8>,
            TokenError,
        >(e),
{
    let tb = str_bytes(token);
    verify_token_bytes(secret, tb)
}

/// Verifies a token given as its byte string; `verify_token` and the
/// cookie path both come through here.
pub fn verify_token_bytes(secret: &Vec<u8>, tb: Vec<u8>) -> (r: Result<Uid, TokenError>)
    ensures
        r matches Ok(u) ==> u.wf() && verify_outcome(secret@, tb@) == Ok::<Seq<u8>, TokenError>(
            u@,
        ),
        r matches Err(e) ==> verify_outcome(secret@, tb@) == Err::<Seq<u8>, TokenError>(e),
{
    let mut dots: usize = 0;
    let mut p1: usize = 0;
    let mut p2: usize = 0;
    let mut i: usize = 0;
    while i < tb.len()
        invariant
            i <= tb@.len(),
            dots == 0 ==> forall|j: int| 0 <= j < i ==> tb@[j] != 46u8,
            dots >= 1 ==> p1 < i && tb@[p1 as int] == 46u8,
            dots == 1 ==> forall|j: int| 0 <= j < i && j != p1 ==> tb@[j] != 46u8,
            dots >= 2 ==> p2 < i && p1 < p2 && tb@[p2 as int] == 46u8,
        decreases tb@.len() - i,
    {
        if tb[i] == 46u8 {
            if dots == 0 {
                p1 = i;
            } else if dots == 1 {
                p2 = i;
            }
            if dots < 2 {
                dots = dots + 1;
            }
        }
        i = i + 1;
    }
    if dots != 1 {
        proof {
            if dots == 0 {
                assert(!has_sole_dot(tb@));
            } else {
                assert forall|p: int| !sole_dot(tb@, p) by {
                    if p == p1 {
                        assert(tb@[p2 as int] == 46u8);
                    } else {
                        assert(tb@[p1 as int] == 46u8);
                    }
                }
                assert(!has_sole_dot(tb@));
            }
        }
        return Err(TokenError::InvalidFormat);
    }
    proof {
        assert(sole_dot(tb@, p1 as int));
        assert(dot_pos(tb@) == p1 as int) by {
            let q = dot_pos(tb@);
            assert(sole_dot(tb@, q));
            if q != p1 {
                assert(tb@[p1 as int] != 46u8);
            }
        }
    }
    let head = sub_bytes(&tb, 0, p1);
    let tail = sub_bytes(&tb, p1 + 1, tb.len());
    let sig = match b64url_decode(tail.as_slice()) {
        Some(d) => d,
        None => {
            return Err(TokenError::InvalidEncoding);
        },
    };
    let mac = hmac_sha256(secret.as_slice(), head.as_slice());
    if !ct_bytes_eq(&sig, &mac) {
        proof {
            assert(tail@ != b64url_of(hmac_sha256_of(secret@, head@)));
        }
        return Err(TokenError::SignatureMismatch);
    }
    let idb = match hex_decode(&head) {
        Some(b) => b,
        None => {
            proof {
                assert forall|b: Seq<u8>| !(b.len() == 16 && head@ == hex_of(b)) by {}
            }
            return Err(TokenError::InvalidIdentifier);
        },
    };
    if idb.len() != 16 {
        proof {
            assert forall|b: Seq<u8>| b.len() == 16 && head@ == hex_of(b) implies false by {
                lemma_hex_of_injective(b, idb@);
            }
        }
        return Err(TokenError::InvalidIdentifier);
    }
    proof {
        assert(exists|b: Seq<u8>| b.len() == 16 && head@ == hex_of(b));
        let w = choose|b: Seq<u8>| b.len() == 16 && head@ == hex_of(b);
        lemma_hex_of_injective(w, idb@);
    }
    match Uid::from_bytes(idb) {
        Some(u) => Ok(u),
        None => Err(TokenError::InvalidIdentifier),
    }
}

/// A signed token verifies back to the identifier it was made from, and to
/// no other: verification inverts signing.
pub proof fn lemma_sign_verify_round_trip(secret: Seq<u8>, tb: Seq<u8>, id: Seq<u8>)
    requires
        is_signed_token(secret, tb, id),
    ensures
        verify_outcome(secret, tb) == Ok::<Seq<u8>, TokenError>(id),
{
    let p = dot_pos(tb);
    assert(sole_dot(tb, p));
    lemma_hex_no_dot(id);
    assert(hex_of(id).len() == 32);
    assert(tb[32] == 46u8);
    assert(p == 32) by {
        if p != 32 {
            assert(tb[32] != 46u8);
        }
    }
    let head = tb.subrange(0, 32);
    let tail = tb.subrange(33, tb.len() as int);
    assert(head =~= hex_of(id));
    assert(tail =~= b64url_of(hmac_sha256_of(secret, hex_of(id))));
    assert(exists|d: Seq<u8>| tail == b64url_of(d));
    assert(exists|b: Seq<u8>| b.len() == 16 && head == hex_of(b));
    let w = choose|b: Seq<u8>| b.len() == 16 && head == hex_of(b);
    lemma_hex_of_injective(w, id);
}

} // verus!
