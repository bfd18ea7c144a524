use webhook_verify::parse_stripe_signature_header;
use webhook_verify::ParseError;

#[test]
fn parses_timestamp_and_signature() {
    let values = parse_stripe_signature_header("t=1,v1=abc").unwrap();
    assert_eq!(values.get("t").unwrap().as_str(), "1");
    assert_eq!(values.get("v1").unwrap().as_str(), "abc");
}

#[test]
fn keeps_unknown_keys() {
    let values = parse_stripe_signature_header("t=1,v1=abc,v0=def").unwrap();
    assert_eq!(values.get("t").unwrap().as_str(), "1");
    assert_eq!(values.get("v1").unwrap().as_str(), "abc");
    assert_eq!(values.get("v0").unwrap().as_str(), "def");
}

#[test]
fn timestamp_alone_parses() {
    let values = parse_stripe_signature_header("t=1").unwrap();
    assert_eq!(values.get("t").unwrap().as_str(), "1");
    assert!(values.get("v1").is_none());
}

#[test]
fn segment_without_equals_is_malformed() {
    assert!(matches!(
        parse_stripe_signature_header("garbage"),
        Err(ParseError::MalformedPair)
    ));
}

#[test]
fn segment_with_two_equals_is_malformed() {
    assert!(matches!(
        parse_stripe_signature_header("t=1=2,v1=abc"),
        Err(ParseError::MalformedPair)
    ));
}

#[test]
fn empty_header_is_malformed() {
    assert!(matches!(parse_stripe_signature_header(""), Err(ParseError::MalformedPair)));
    assert!(matches!(
        parse_stripe_signature_header("   "),
        Err(ParseError::MalformedPair)
    ));
}

#[test]
fn whitespace_around_tokens_is_trimmed() {
    let values = parse_stripe_signature_header(" t = 1 , v1 = abc ").unwrap();
    assert_eq!(values.get("t").unwrap().as_str(), "1");
    assert_eq!(values.get("v1").unwrap().as_str(), "abc");
}

#[test]
fn empty_value_is_allowed() {
    let values = parse_stripe_signature_header("t=1,v0=").unwrap();
    assert_eq!(values.get("v0").unwrap().as_str(), "");
}

#[test]
fn repeated_key_overwrites_earlier_value() {
    let values = parse_stripe_signature_header("t=1,t=2,v1=abc").unwrap();
    assert_eq!(values.get("t").unwrap().as_str(), "2");
}

#[test]
fn absent_key_is_none() {
    let values = parse_stripe_signature_header("t=1,v1=abc").unwrap();
    assert!(values.get("v9").is_none());
}
