//! Trusted boundary to the cryptographic primitives the token scheme uses:
//! HMAC-SHA-256 and unpadded URL-safe base64. Each outside call sits behind
//! one wrapper whose contract states what the crate's source shows; the
//! digest itself is only named, never spelled out.

use vstd::prelude::*;

verus! {

/// The HMAC-SHA-256 tag for a key and a message. The tag is a function of
/// the two arguments alone; nothing else about it is assumed here.
pub uninterp spec fn hmac_sha256_of(key: Seq<u8>, msg: Seq<u8>) -> Seq<u8>;

/// The unpadded URL-safe base64 rendering of a byte string.
pub uninterp spec fn b64url_of(b: Seq<u8>) -> Seq<u8>;

/// Relies on hmac's `Hmac<Sha256>` (`new_from_slice`, `update`, `finalize`):
/// the tag depends on the key and message alone and is 32 bytes, the
/// SHA-256 output size. `new_from_slice` accepts keys of any length.
#[verifier::external_body]
pub fn hmac_sha256(key: &[u8], msg: &[u8]) -> (r: Vec<u8>)
    ensures
        r@ == hmac_sha256_of(key@, msg@),
        r@.len() == 32,
{
    let mut mac = <hmac::Hmac<sha2::Sha256> as hmac::Mac>::new_from_slice(key).unwrap();
    hmac::Mac::update(&mut mac, msg);
    hmac::Mac::finalize(mac).into_bytes().to_vec()
}

/// Relies on base64's `Engine::encode` with `BASE64_URL_SAFE_NO_PAD`: the
/// output is a function of the input bytes, and its alphabet
/// (`A-Z a-z 0-9 - _`, no padding) never contains an ASCII dot. The length
/// bound keeps the crate's output-size computation from overflowing, where
/// it would panic.
#[verifier::external_body]
pub fn b64url_encode(b: &[u8]) -> (r: Vec<u8>)
    requires
        b@.len() <= usize::MAX / 4,
    ensures
        r@ == b64url_of(b@),
        forall|i: int| 0 <= i < r@.len() ==> r@[i] != 46u8 && r@[i] < 128,
{
    base64::Engine::encode(&base64::prelude::BASE64_URL_SAFE_NO_PAD, b).into_bytes()
}

/// Relies on base64's `Engine::decode` with `BASE64_URL_SAFE_NO_PAD`: with
/// padding required absent and trailing bits rejected, decoding succeeds
/// exactly on canonical encodings, and inverts `encode` on them.
#[verifier::external_body]
pub fn b64url_decode(s: &[u8]) -> (r: Option<Vec<u8>>)
    ensures
        r matches Some(d) ==> s@ == b64url_of(d@),
        r is None ==> forall|b: Seq<u8>| s@ != b64url_of(b),
        r matches Some(d) ==> forall|b: Seq<u8>| s@ == b64url_of(b) ==> d@ == b,
{
    base64::Engine::decode(&base64::prelude::BASE64_URL_SAFE_NO_PAD, s).ok()
}

} // verus!
