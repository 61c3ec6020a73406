//! Signed, time-boxed, use-limited provisioning links, and the session and
//! authorization machinery around them.
//!
//! The heart of the crate is a capability-token scheme: a time-ordered
//! identifier is rendered as `"{hex}.{base64url(hmac_sha256(secret, hex))}"`,
//! handed out as a URL, and later verified and redeemed against a store that
//! tracks expiry and a bounded use count.

use vstd::prelude::*;

pub mod authz;
pub mod codec;
pub mod crypto;
pub mod errors;
pub mod hex;
pub mod kanidm;
pub mod oauth;
pub mod provision;
pub mod service;
pub mod session;
pub mod storage;
pub mod strutil;
pub mod uid;

verus! {

} // verus!
