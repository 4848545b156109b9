use arkivist::signature::{verify_qstash_signature, verify_qstash_signature_at, SignatureError};
use base64::Engine;
use hmac::{Hmac, Mac};
use sha2::{Digest, Sha256};

const CURRENT_SIGNING_KEY: &str = "current_signing_key";
const NEXT_SIGNING_KEY: &str = "next_signing_key";
const URL: &str = "https://archivist.example.com/jobs/process_event";

fn current_unix_timestamp() -> i64 {
    std::time::SystemTime::now()
        .duration_since(std::time::UNIX_EPOCH)
        .expect("current time should be after unix epoch")
        .as_secs() as i64
}

fn sign_at(signing_key: &str, body: &[u8], url: &str, padded_body_hash: bool, nbf: i64, exp: i64) -> String {
    let body_hash = if padded_body_hash {
        base64::engine::general_purpose::URL_SAFE.encode(Sha256::digest(body))
    } else {
        base64::engine::general_purpose::URL_SAFE_NO_PAD.encode(Sha256::digest(body))
    };
    let claims = format!(
        r#"{{"iss":"Upstash","sub":"{url}","nbf":{nbf},"exp":{exp},"body":"{body_hash}"}}"#
    );
    sign_claims(signing_key, &claims)
}

fn sign_claims(signing_key: &str, claims: &str) -> String {
    let header = r#"{"alg":"HS256","typ":"JWT"}"#;
    let header_b64 = base64::engine::general_purpose::URL_SAFE_NO_PAD.encode(header.as_bytes());
    let claims_b64 = base64::engine::general_purpose::URL_SAFE_NO_PAD.encode(claims.as_bytes());
    let signing_input = format!("{header_b64}.{claims_b64}");

    let mut mac = <Hmac<Sha256> as hmac::digest::KeyInit>::new_from_slice(signing_key.as_bytes())
        .expect("signing key");
    mac.update(signing_input.as_bytes());
    let signature = mac.finalize().into_bytes();
    let signature_b64 = base64::engine::general_purpose::URL_SAFE_NO_PAD.encode(signature);

    format!("{signing_input}.{signature_b64}")
}

fn sign_qstash_request(signing_key: &str, body: &[u8], url: &str, padded_body_hash: bool, expired: bool) -> String {
    let now = current_unix_timestamp();
    sign_at(signing_key, body, url, padded_body_hash, now - 5, if expired { now - 1 } else { now + 300 })
}

fn check_current_signing_key_is_accepted() {
    let body = br#"{"ok":true}"#;
    let signature = sign_qstash_request(CURRENT_SIGNING_KEY, body, URL, false, false);

    let result = verify_qstash_signature(
        Some(&signature),
        body,
        URL,
        Some(CURRENT_SIGNING_KEY),
        Some(NEXT_SIGNING_KEY),
    );

    assert_eq!(result, Ok(()));
}

fn check_next_signing_key_is_accepted() {
    let body = br#"{"ok":true}"#;
    let signature = sign_qstash_request(NEXT_SIGNING_KEY, body, URL, false, false);

    let result = verify_qstash_signature(
        Some(&signature),
        body,
        URL,
        Some(CURRENT_SIGNING_KEY),
        Some(NEXT_SIGNING_KEY),
    );

    assert_eq!(result, Ok(()));
}

fn check_padded_body_hash_is_accepted() {
    let body = br#"{"ok":true}"#;
    let signature = sign_qstash_request(CURRENT_SIGNING_KEY, body, URL, true, false);

    let result =
        verify_qstash_signature(Some(&signature), body, URL, Some(CURRENT_SIGNING_KEY), None);

    assert_eq!(result, Ok(()));
}

fn check_bearer_prefix_is_accepted() {
    let body = br#"{"ok":true}"#;
    let signature = sign_qstash_request(CURRENT_SIGNING_KEY, body, URL, false, false);

    let bearer_signature = format!("Bearer {signature}");
    let result = verify_qstash_signature(
        Some(&bearer_signature),
        body,
        URL,
        Some(CURRENT_SIGNING_KEY),
        None,
    );

    assert_eq!(result, Ok(()));
}

fn check_wrong_subject_is_rejected() {
    let body = br#"{"ok":true}"#;
    let signature = sign_qstash_request(
        CURRENT_SIGNING_KEY,
        body,
        "https://archivist.example.com/jobs/heartbeat",
        false,
        false,
    );

    let result =
        verify_qstash_signature(Some(&signature), body, URL, Some(CURRENT_SIGNING_KEY), None);

    assert_eq!(result, Err(SignatureError::UnexpectedSubject));
}

fn check_expired_signature_is_rejected() {
    let body = br#"{"ok":true}"#;
    let signature = sign_qstash_request(CURRENT_SIGNING_KEY, body, URL, false, true);

    let result =
        verify_qstash_signature(Some(&signature), body, URL, Some(CURRENT_SIGNING_KEY), None);

    assert_eq!(result, Err(SignatureError::Expired));
}

#[test]
fn signature_current_signing_key_is_accepted() {
    check_current_signing_key_is_accepted();
}

#[test]
fn signature_next_signing_key_is_accepted() {
    check_next_signing_key_is_accepted();
}

#[test]
fn signature_padded_body_hash_is_accepted() {
    check_padded_body_hash_is_accepted();
}

#[test]
fn signature_bearer_prefix_is_accepted() {
    check_bearer_prefix_is_accepted();
}

#[test]
fn signature_wrong_subject_is_rejected() {
    check_wrong_subject_is_rejected();
}

#[test]
fn signature_expired_signature_is_rejected() {
    check_expired_signature_is_rejected();
}

#[test]
fn signature_tests_current_signing_key_is_accepted() {
    check_current_signing_key_is_accepted();
}

#[test]
fn signature_tests_next_signing_key_is_accepted() {
    check_next_signing_key_is_accepted();
}

#[test]
fn signature_tests_padded_body_hash_is_accepted() {
    check_padded_body_hash_is_accepted();
}

#[test]
fn signature_tests_bearer_prefix_is_accepted() {
    check_bearer_prefix_is_accepted();
}

#[test]
fn signature_tests_wrong_subject_is_rejected() {
    check_wrong_subject_is_rejected();
}

#[test]
fn signature_tests_expired_signature_is_rejected() {
    check_expired_signature_is_rejected();
}

#[test]
fn missing_header_and_missing_keys_are_reported() {
    let body = br#"{"ok":true}"#;
    assert_eq!(
        verify_qstash_signature(None, body, URL, Some(CURRENT_SIGNING_KEY), None),
        Err(SignatureError::MissingSignatureHeader)
    );
    assert_eq!(
        verify_qstash_signature(Some("   "), body, URL, Some(CURRENT_SIGNING_KEY), None),
        Err(SignatureError::MissingSignatureHeader)
    );
    let signature = sign_qstash_request(CURRENT_SIGNING_KEY, body, URL, false, false);
    assert_eq!(
        verify_qstash_signature(Some(&signature), body, URL, Some("  "), None),
        Err(SignatureError::MissingSigningKey)
    );
}

#[test]
fn signature_checks_at_a_fixed_time() {
    let body = br#"{"ok":true}"#;
    let signature = sign_at(CURRENT_SIGNING_KEY, body, URL, false, 1000, 2000);
    let at = |now: i64| verify_qstash_signature_at(Some(&signature), body, URL, Some(CURRENT_SIGNING_KEY), None, now);
    assert_eq!(at(1500), Ok(()));
    assert_eq!(at(999), Err(SignatureError::NotYetActive));
    assert_eq!(at(2001), Err(SignatureError::Expired));
    assert_eq!(
        verify_qstash_signature_at(Some(&signature), b"other", URL, Some(CURRENT_SIGNING_KEY), None, 1500),
        Err(SignatureError::BodyMismatch)
    );
    assert_eq!(
        verify_qstash_signature_at(Some(&signature), body, URL, Some("wrong"), None, 1500),
        Err(SignatureError::SignatureMismatch)
    );
    assert_eq!(
        verify_qstash_signature_at(Some("not-a-token"), body, URL, Some(CURRENT_SIGNING_KEY), None, 1500),
        Err(SignatureError::InvalidToken)
    );
}

#[test]
fn claims_written_as_an_array_are_read_in_field_order() {
    let body = br#"{"ok":true}"#;
    let body_hash = base64::engine::general_purpose::URL_SAFE_NO_PAD.encode(Sha256::digest(body));
    let claims = format!(r#"[2000,1000,"Upstash","{URL}","{body_hash}"]"#);
    let signature = sign_claims(CURRENT_SIGNING_KEY, &claims);
    let at = |now: i64| verify_qstash_signature_at(Some(&signature), body, URL, Some(CURRENT_SIGNING_KEY), None, now);
    assert_eq!(at(1500), Ok(()));
    assert_eq!(at(2001), Err(SignatureError::Expired));

    let short = sign_claims(CURRENT_SIGNING_KEY, &format!(r#"[2000,1000,"Upstash","{URL}"]"#));
    assert_eq!(
        verify_qstash_signature_at(Some(&short), body, URL, Some(CURRENT_SIGNING_KEY), None, 1500),
        Err(SignatureError::InvalidToken)
    );
}
