use authit::codec::{sign_token, verify_token};
use authit::errors::TokenError;
use authit::hex::{hex_decode, hex_encode};
use authit::provision::ProvisionToken;
use authit::uid::Uid;

fn uid_from(bytes: [u8; 16]) -> Uid {
    Uid::from_bytes(bytes.to_vec()).unwrap()
}

fn secret() -> Vec<u8> {
    b"a test signing secret".to_vec()
}

#[test]
fn sign_then_verify_returns_same_id() {
    let s = secret();
    let id = uid_from([
        0x01, 0x92, 0x33, 0x44, 0x55, 0x66, 0x77, 0x88, 0x99, 0xaa, 0xbb, 0xcc, 0xdd, 0xee, 0xff,
        0x00,
    ]);
    let tok = sign_token(&s, &id);
    let back = verify_token(&s, tok.as_str()).expect("fresh token must verify");
    assert_eq!(back.as_bytes(), id.as_bytes());
}

#[test]
fn token_matches_hmac_and_base64_of_real_crates() {
    // The token must be "{hex}.{base64url(hmac_sha256(secret, hex))}", with
    // the pieces computed by the outside crates themselves.
    let s = secret();
    let id_bytes: [u8; 16] = [
        0x00, 0x11, 0x22, 0x33, 0x44, 0x55, 0x66, 0x77, 0x88, 0x99, 0xaa, 0xbb, 0xcc, 0xdd, 0xee,
        0xff,
    ];
    let id = uid_from(id_bytes);
    let tok = sign_token(&s, &id);

    let hex = "00112233445566778899aabbccddeeff";
    let mut mac = <hmac::Hmac<sha2::Sha256> as hmac::Mac>::new_from_slice(&s).unwrap();
    hmac::Mac::update(&mut mac, hex.as_bytes());
    let tag = hmac::Mac::finalize(mac).into_bytes();
    let sig = base64::Engine::encode(&base64::prelude::BASE64_URL_SAFE_NO_PAD, tag);
    let expected = format!("{}.{}", hex, sig);
    assert_eq!(tok, expected);
}

#[test]
fn flipping_any_byte_of_the_signature_fails() {
    let s = secret();
    let id = uid_from([7u8; 16]);
    let tok = sign_token(&s, &id);
    let dot = tok.find('.').unwrap();
    let bytes = tok.as_bytes();
    for i in (dot + 1)..bytes.len() {
        let mut tampered = bytes.to_vec();
        tampered[i] ^= 1;
        let t = String::from_utf8(tampered).unwrap();
        assert!(verify_token(&s, &t).is_err(), "flip at {} verified", i);
    }
}

#[test]
fn flipping_any_byte_of_the_id_part_fails() {
    // The HMAC covers the whole identifier part, so a flip anywhere in it
    // must be caught.
    let s = secret();
    let id = uid_from([0x5a; 16]);
    let tok = sign_token(&s, &id);
    let dot = tok.find('.').unwrap();
    let bytes = tok.as_bytes();
    for i in 0..dot {
        let mut tampered = bytes.to_vec();
        tampered[i] ^= 1;
        let t = String::from_utf8(tampered).unwrap();
        assert!(verify_token(&s, &t).is_err(), "flip at {} verified", i);
    }
}

#[test]
fn verify_with_other_secret_is_signature_mismatch() {
    let s = secret();
    let id = uid_from([3u8; 16]);
    let tok = sign_token(&s, &id);
    let other = b"another signing key".to_vec();
    assert!(matches!(
        verify_token(&other, tok.as_str()),
        Err(TokenError::SignatureMismatch)
    ));
}

#[test]
fn malformed_tokens_report_their_error_class() {
    let s = secret();
    assert!(matches!(verify_token(&s, ""), Err(TokenError::InvalidFormat)));
    assert!(matches!(
        verify_token(&s, "nodotatall"),
        Err(TokenError::InvalidFormat)
    ));
    assert!(matches!(verify_token(&s, "a.b.c"), Err(TokenError::InvalidFormat)));
    // One dot, but the tail is not base64url (padding is refused too).
    assert!(matches!(
        verify_token(&s, "00112233445566778899aabbccddeeff.!!!"),
        Err(TokenError::InvalidEncoding)
    ));
    assert!(matches!(
        verify_token(&s, "00112233445566778899aabbccddeeff.aGVsbG8="),
        Err(TokenError::InvalidEncoding)
    ));
    // One dot and decodable tail, but the signature is wrong.
    assert!(matches!(
        verify_token(&s, "00112233445566778899aabbccddeeff.aGVsbG8"),
        Err(TokenError::SignatureMismatch)
    ));
}

#[test]
fn genuine_signature_over_a_bad_identifier_is_invalid_identifier() {
    // Sign a head that is not canonical 16-byte hex; the signature check
    // passes, and only then is the identifier refused.
    let s = secret();
    for head in ["nothex!", "abcd", "00112233445566778899AABBCCDDEEFF"] {
        let mut mac = <hmac::Hmac<sha2::Sha256> as hmac::Mac>::new_from_slice(&s).unwrap();
        hmac::Mac::update(&mut mac, head.as_bytes());
        let tag = hmac::Mac::finalize(mac).into_bytes();
        let sig = base64::Engine::encode(&base64::prelude::BASE64_URL_SAFE_NO_PAD, tag);
        let tok = format!("{}.{}", head, sig);
        assert!(
            matches!(verify_token(&s, &tok), Err(TokenError::InvalidIdentifier)),
            "head {:?}",
            head
        );
    }
}

#[test]
fn hex_encode_decode_round_trip() {
    let data = vec![0x00u8, 0x01, 0x7f, 0x80, 0xab, 0xff];
    let hex = hex_encode(&data);
    assert_eq!(hex, b"00017f80abff".to_vec());
    assert_eq!(hex_decode(&hex), Some(data));
}

#[test]
fn hex_decode_rejects_non_canonical() {
    assert_eq!(hex_decode(&b"abc".to_vec()), None); // odd length
    assert_eq!(hex_decode(&b"AB".to_vec()), None); // uppercase is not canonical
    assert_eq!(hex_decode(&b"0g".to_vec()), None); // not a hex digit
    assert_eq!(hex_decode(&b"".to_vec()), Some(vec![]));
}

#[test]
fn provision_token_wraps_its_string() {
    let t = ProvisionToken::new("abc.def".to_string());
    assert_eq!(t.as_str(), "abc.def");
}

#[test]
fn fresh_ids_are_sixteen_bytes_and_distinct() {
    let a = Uid::fresh();
    let b = Uid::fresh();
    assert_eq!(a.as_bytes().len(), 16);
    assert_eq!(b.as_bytes().len(), 16);
    assert_ne!(a.as_bytes(), b.as_bytes());
}

#[test]
fn creation_ms_reads_the_first_six_bytes() {
    let id = uid_from([0, 0, 0, 0, 1, 2, 0, 0, 0, 0, 0, 0, 0, 0, 0, 0]);
    assert_eq!(id.creation_ms(), 258);
    let id2 = uid_from([0x01, 0x02, 0x03, 0x04, 0x05, 0x06, 0, 0, 0, 0, 0, 0, 0, 0, 0, 0]);
    assert_eq!(id2.creation_ms(), 0x010203040506);
}

#[test]
fn fresh_id_carries_recent_creation_time() {
    // now_v7 identifiers embed the clock; the embedded instant must be the
    // wall clock, give or take a minute.
    let id = Uid::fresh();
    let now = std::time::SystemTime::now()
        .duration_since(std::time::UNIX_EPOCH)
        .unwrap()
        .as_millis() as u64;
    let created = id.creation_ms();
    assert!(created <= now + 60_000 && created + 60_000 >= now);
}
