use std::time::{SystemTime, UNIX_EPOCH};

use webhook_verify::compute_signature;
use webhook_verify::parse_stripe_signature_header;
use webhook_verify::verify;
use webhook_verify::ParseError;
use webhook_verify::VerifyError;

const SECRET: &str = "really secure secret";
const PAYLOAD: &str = "sample payload";
// HMAC-SHA256("1700000000.sample payload") under "really secure secret".
const VALID_SIG: &str = "2219aeb4b9bf490213a821f1383588e0162298260ab62970ef6d3df0c586d033";

fn generate_test_header(payload: String) -> String {
    let start = SystemTime::now();
    let timestamp = start
        .duration_since(UNIX_EPOCH)
        .expect("time went backwards")
        .as_secs()
        .to_string();

    let payload = format!("{}.{}", timestamp, payload);
    let signature = compute_signature(&payload, "really secure secret");

    let header = format!("t={},v1={},v0=", timestamp, signature);

    return header;
}

#[test]
fn it_parses_stripe_signature_header() {
    let stripe_signature_header = generate_test_header("sample payload".to_string());

    let values = parse_stripe_signature_header(&stripe_signature_header).unwrap();

    assert!(values.get("t").is_some());
    assert!(values.get("v1").is_some());

    assert!(verify(
        "really secure secret",
        &stripe_signature_header,
        "sample payload",
    )
    .unwrap());
}

#[test]
fn valid_header_verifies() {
    let header = format!("t=1700000000,v1={}", VALID_SIG);
    assert_eq!(verify(SECRET, &header, PAYLOAD), Ok(true));
}

#[test]
fn wrong_secret_is_rejected_not_an_error() {
    let header = format!("t=1700000000,v1={}", VALID_SIG);
    assert_eq!(verify("some other secret", &header, PAYLOAD), Ok(false));
}

#[test]
fn different_payload_is_rejected_not_an_error() {
    let header = format!("t=1700000000,v1={}", VALID_SIG);
    assert_eq!(verify(SECRET, &header, "tampered payload"), Ok(false));
}

#[test]
fn wrong_signature_is_rejected_not_an_error() {
    let header = "t=1700000000,v1=deadbeef";
    assert_eq!(verify(SECRET, header, PAYLOAD), Ok(false));
}

#[test]
fn unknown_keys_are_ignored_by_verify() {
    let header = format!("t=1700000000,v1={},v0=legacy", VALID_SIG);
    assert_eq!(verify(SECRET, &header, PAYLOAD), Ok(true));
}

#[test]
fn timestamp_is_used_verbatim() {
    // A different timestamp text changes the signed string, so the same
    // signature no longer matches.
    let header = format!("t=01700000000,v1={}", VALID_SIG);
    assert_eq!(verify(SECRET, &header, PAYLOAD), Ok(false));
}

#[test]
fn missing_signature_field_is_an_error() {
    assert_eq!(verify(SECRET, "t=1", PAYLOAD), Err(VerifyError::MissingSignature));
}

#[test]
fn missing_timestamp_field_is_an_error() {
    assert_eq!(verify(SECRET, "v1=abc", PAYLOAD), Err(VerifyError::MissingTimestamp));
}

#[test]
fn malformed_header_is_an_error() {
    assert_eq!(
        verify(SECRET, "garbage", PAYLOAD),
        Err(VerifyError::HeaderError(ParseError::MalformedPair))
    );
}

#[test]
fn verify_is_idempotent() {
    let header = format!("t=1700000000,v1={}", VALID_SIG);
    let first = verify(SECRET, &header, PAYLOAD);
    let second = verify(SECRET, &header, PAYLOAD);
    assert_eq!(first, second);
    assert_eq!(first, Ok(true));

    let third = verify(SECRET, "garbage", PAYLOAD);
    let fourth = verify(SECRET, "garbage", PAYLOAD);
    assert_eq!(third, fourth);
}
