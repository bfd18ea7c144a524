//! The verifier: parses the signature header, reconstructs the signed
//! string `<t>.<payload>`, computes its expected signature under the secret
//! and compares it against the received `v1` value in constant time.

use vstd::prelude::*;
use vstd::string::StringExecFns;
use vstd::utf8::encode_utf8;
use vstd::utf8::encode_utf8_decode_utf8;

use crate::header::{
    map_of_segments, parse_stripe_signature_header, segment_key, segment_value,
    segment_wellformed, spec_parse_header, ParseError,
};
use crate::signature::{
    bytes_eq_ct, compute_signature, hmac_sha256_of, is_hex_char, lemma_hex_of_chars,
    spec_compute_signature,
};
use crate::text::{
    is_space_char, lemma_split_two, lemma_trim_nospace, spec_trim, split_on,
};

verus! {

/// Why a verification call could not be evaluated.  A wrong signature is
/// not an error: it is a successful call that returns `false`.
#[derive(Clone, Copy, Debug, PartialEq, Eq, Structural)]
pub enum VerifyError {
    /// The signature header could not be parsed.
    HeaderError(ParseError),
    /// The parsed header lacks the `t` (timestamp) field.
    MissingTimestamp,
    /// The parsed header lacks the `v1` (signature) field.
    MissingSignature,
}

/// The signed string: the verbatim timestamp value, a literal `.`, the
/// verbatim payload.
pub open spec fn spec_signed_string(t: Seq<char>, payload: Seq<char>) -> Seq<char> {
    t + "."@ + payload
}

/// What `verify` returns: a parse failure is propagated; a header without
/// `t` or without `v1` is rejected; otherwise the result says whether the
/// received `v1` value equals the expected signature of `<t>.<payload>`
/// under the secret.
pub open spec fn spec_verify(secret: Seq<char>, header: Seq<char>, payload: Seq<char>) -> Result<
    bool,
    VerifyError,
> {
    match spec_parse_header(header) {
        Err(e) => Err(VerifyError::HeaderError(e)),
        Ok(m) => {
            if !m.contains_key("t"@) {
                Err(VerifyError::MissingTimestamp)
            } else if !m.contains_key("v1"@) {
                Err(VerifyError::MissingSignature)
            } else {
                Ok(spec_compute_signature(spec_signed_string(m["t"@], payload), secret)
                    == m["v1"@])
            }
        },
    }
}

/// Verifies an HMAC-SHA256 signed webhook payload against its signature
/// header.  Returns `Ok(true)` when the `v1` signature matches the payload
/// under the secret, `Ok(false)` when it does not, and an error only when
/// the header is malformed or lacks a required field.
pub fn verify(secret: &str, header: &str, payload: &str) -> (r: Result<bool, VerifyError>)
    ensures
        r == spec_verify(secret@, header@, payload@),
{
    let parsed = match parse_stripe_signature_header(header) {
        Ok(m) => m,
        Err(e) => {
            return Err(VerifyError::HeaderError(e));
        },
    };
    let t = match parsed.get("t") {
        Some(v) => v,
        None => {
            return Err(VerifyError::MissingTimestamp);
        },
    };
    let v1 = match parsed.get("v1") {
        Some(v) => v,
        None => {
            return Err(VerifyError::MissingSignature);
        },
    };
    let mut signed: String = t.clone();
    signed.append(".");
    signed.append(payload);
    let expected = compute_signature(signed.as_str(), secret);
    let r = bytes_eq_ct(expected.as_str().as_bytes(), v1.as_str().as_bytes());
    proof {
        if encode_utf8(expected@) == encode_utf8(v1@) {
            encode_utf8_decode_utf8(expected@);
            encode_utf8_decode_utf8(v1@);
        }
        assert(r == (expected@ == v1@));
    }
    Ok(r)
}

/// Whether `c` is an ASCII decimal digit.
pub open spec fn is_digit_char(c: char) -> bool {
    '0' <= c && c <= '9'
}

/// The signature header a signer builds for timestamp text `t` and
/// signature `sig`: `t=<t>,v1=<sig>`.
pub open spec fn spec_header_for(t: Seq<char>, sig: Seq<char>) -> Seq<char> {
    "t="@ + t + ",v1="@ + sig
}

/// Verifying a header of the shape `t=<t>,v1=<sig>` - decimal timestamp
/// text, hexadecimal signature text - is never an error, whatever the
/// secret and payload: the call is evaluated, and returns whether `sig`
/// equals the expected signature of `<t>.<payload>` under the secret.  In
/// particular, a wrong secret or a tampered payload yields `Ok(false)`,
/// not a failure.
pub proof fn lemma_wellformed_header_evaluates(
    secret: Seq<char>,
    payload: Seq<char>,
    t: Seq<char>,
    sig: Seq<char>,
)
    requires
        t.len() > 0,
        forall|i: int| 0 <= i < t.len() ==> is_digit_char(#[trigger] t[i]),
        forall|i: int| 0 <= i < sig.len() ==> is_hex_char(#[trigger] sig[i]),
    ensures
        spec_verify(secret, spec_header_for(t, sig), payload) == Ok::<bool, VerifyError>(
            spec_compute_signature(spec_signed_string(t, payload), secret) == sig,
        ),
{
    let h = spec_header_for(t, sig);
    reveal_strlit("t=");
    reveal_strlit(",v1=");
    reveal_strlit("v1=");
    reveal_strlit("t");
    reveal_strlit("v1");
    reveal_strlit(".");
    let a = "t="@ + t;
    let b = "v1="@ + sig;
    assert(h =~= a + seq![','] + b);
    // The trimmed header is the header itself: it starts with 't' and ends
    // with a hex digit or '='.
    assert(h[0] == 't');
    assert(!is_space_char(h[h.len() - 1]));
    lemma_trim_nospace(h);
    // Splitting on ',' yields the two segments.
    assert(forall|j: int| 0 <= j < a.len() ==> a[j] != ',');
    assert(forall|j: int| 0 <= j < b.len() ==> b[j] != ',');
    lemma_split_two(a, b, ',');
    let segs = seq![a, b];
    assert(split_on(spec_trim(h), ',') == segs);
    // Each segment splits on '=' into its key and value.
    assert(a =~= "t"@ + seq!['='] + t);
    assert(forall|j: int| 0 <= j < "t"@.len() ==> "t"@[j] != '=');
    assert(forall|j: int| 0 <= j < t.len() ==> t[j] != '=');
    lemma_split_two("t"@, t, '=');
    assert(b =~= "v1"@ + seq!['='] + sig);
    assert(forall|j: int| 0 <= j < "v1"@.len() ==> "v1"@[j] != '=');
    assert(forall|j: int| 0 <= j < sig.len() ==> sig[j] != '=');
    lemma_split_two("v1"@, sig, '=');
    assert(segment_wellformed(a));
    assert(segment_wellformed(b));
    assert(forall|i: int| 0 <= i < segs.len() ==> segment_wellformed(#[trigger] segs[i]));
    // Keys and values are already trimmed.
    lemma_trim_nospace("t"@);
    lemma_trim_nospace(t);
    lemma_trim_nospace("v1"@);
    lemma_trim_nospace(sig);
    assert(segment_key(a) == "t"@);
    assert(segment_value(a) == t);
    assert(segment_key(b) == "v1"@);
    assert(segment_value(b) == sig);
    // The parsed mapping holds exactly the two pairs.
    assert(segs.drop_last() =~= seq![a]);
    assert(seq![a].drop_last() =~= Seq::<Seq<char>>::empty());
    let m = map_of_segments(segs);
    assert(map_of_segments(Seq::<Seq<char>>::empty()) == Map::<Seq<char>, Seq<char>>::empty());
    assert(seq![a].last() == a);
    assert(map_of_segments(seq![a]) == Map::<Seq<char>, Seq<char>>::empty().insert("t"@, t));
    assert(segs.last() == b);
    assert(m == map_of_segments(seq![a]).insert("v1"@, sig));
    assert("t"@ != "v1"@);
    assert(spec_parse_header(h) == Ok::<Map<Seq<char>, Seq<char>>, ParseError>(m));
    assert(m["t"@] == t);
    assert(m["v1"@] == sig);
}

/// A correctly signed header verifies: for every secret, payload and
/// decimal timestamp text `t`, building the header
/// `t=<t>,v1=<hex HMAC-SHA256 of "<t>.<payload>" under the secret>` and
/// verifying that header against the same secret and payload returns
/// `Ok(true)`.
pub proof fn lemma_valid_header_verifies(secret: Seq<char>, payload: Seq<char>, t: Seq<char>)
    requires
        t.len() > 0,
        forall|i: int| 0 <= i < t.len() ==> is_digit_char(#[trigger] t[i]),
    ensures
        spec_verify(
            secret,
            spec_header_for(t, spec_compute_signature(spec_signed_string(t, payload), secret)),
            payload,
        ) == Ok::<bool, VerifyError>(true),
{
    let sig = spec_compute_signature(spec_signed_string(t, payload), secret);
    lemma_hex_of_chars(
        hmac_sha256_of(encode_utf8(secret), encode_utf8(spec_signed_string(t, payload))),
    );
    lemma_wellformed_header_evaluates(secret, payload, t, sig);
}

/// Two calls of `verify` on identical inputs return identical results: each
/// result is `spec_verify` of the inputs, a pure function with no hidden
/// state.
pub proof fn lemma_verify_deterministic(
    secret: Seq<char>,
    header: Seq<char>,
    payload: Seq<char>,
    r1: Result<bool, VerifyError>,
    r2: Result<bool, VerifyError>,
)
    requires
        r1 == spec_verify(secret, header, payload),
        r2 == spec_verify(secret, header, payload),
    ensures
        r1 == r2,
{
}

} // verus!
