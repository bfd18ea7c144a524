//! Signature computation: the HMAC-SHA256 digest of the signed string,
//! keyed with the secret and rendered as lowercase hexadecimal, and the
//! constant-time comparison of two signatures.

use vstd::prelude::*;
use vstd::utf8::encode_utf8;

verus! {

/// The lowercase hex digit for a nibble.
pub open spec fn hex_digit(n: u8) -> char
    recommends
        n < 16,
{
    if n < 10 {
        (n + 48) as char
    } else {
        ((n + 87) as u8) as char
    }
}

/// Lowercase hexadecimal rendering: two digits per byte, high nibble first.
pub open spec fn hex_of(b: Seq<u8>) -> Seq<char>
    decreases b.len(),
{
    if b.len() == 0 {
        Seq::empty()
    } else {
        hex_of(b.drop_last()) + seq![hex_digit(b.last() / 16), hex_digit(b.last() % 16)]
    }
}

/// Whether `c` is a lowercase hexadecimal digit.
pub open spec fn is_hex_char(c: char) -> bool {
    ('0' <= c && c <= '9') || ('a' <= c && c <= 'f')
}

/// Every character of a hex rendering is a lowercase hex digit, and a byte
/// becomes two of them.
pub proof fn lemma_hex_of_chars(b: Seq<u8>)
    ensures
        hex_of(b).len() == 2 * b.len(),
        forall|i: int| 0 <= i < hex_of(b).len() ==> is_hex_char(#[trigger] hex_of(b)[i]),
    decreases b.len(),
{
    if b.len() > 0 {
        lemma_hex_of_chars(b.drop_last());
        assert(is_hex_char(hex_digit(b.last() / 16)));
        assert(is_hex_char(hex_digit(b.last() % 16)));
    }
}

/// The HMAC-SHA256 digest of `msg` keyed with `key`: a pure function of the
/// two, computed by the hmac and sha2 crates.
pub uninterp spec fn hmac_sha256_of(key: Seq<u8>, msg: Seq<u8>) -> Seq<u8>;

/// Relies on hmac's `Hmac<Sha256>`: key setup accepts a key of any length,
/// and the finalized digest is a pure 32-byte function of key and message.
#[verifier::external_body]
fn hmac_sha256(key: &[u8], msg: &[u8]) -> (r: Vec<u8>)
    ensures
        r@ == hmac_sha256_of(key@, msg@),
        r@.len() == 32,
{
    let mut mac = <hmac::Hmac<sha2::Sha256> as hmac::KeyInit>::new_from_slice(key)
        .expect("HMAC accepts keys of any length");
    hmac::Mac::update(&mut mac, msg);
    hmac::Mac::finalize(mac).into_bytes().as_slice().to_vec()
}

/// Relies on `hex::encode`: each byte becomes two lowercase hex digits,
/// high nibble first, in input order.
#[verifier::external_body]
fn to_hex(b: &[u8]) -> (r: String)
    ensures
        r@ == hex_of(b@),
{
    hex::encode(b)
}

/// Relies on `constant_time_eq::constant_time_eq`: returns whether the two
/// byte strings are equal, without an early exit whose timing would reveal
/// the position of the first differing byte.
#[verifier::external_body]
pub(crate) fn bytes_eq_ct(a: &[u8], b: &[u8]) -> (r: bool)
    ensures
        r == (a@ == b@),
{
    constant_time_eq::constant_time_eq(a, b)
}

/// The signature `compute_signature` returns: the HMAC-SHA256 digest of the
/// payload's UTF-8 bytes, keyed with the secret's UTF-8 bytes, rendered as
/// lowercase hex.
pub open spec fn spec_compute_signature(payload: Seq<char>, secret: Seq<char>) -> Seq<char> {
    hex_of(hmac_sha256_of(encode_utf8(secret), encode_utf8(payload)))
}

/// Computes the hex-encoded HMAC-SHA256 signature of `payload` under
/// `secret`.
pub fn compute_signature(payload: &str, secret: &str) -> (r: String)
    ensures
        r@ == spec_compute_signature(payload@, secret@),
{
    let digest = hmac_sha256(secret.as_bytes(), payload.as_bytes());
    to_hex(digest.as_slice())
}

/// Two calls of `compute_signature` on the same payload and secret return
/// the same signature: each result is `spec_compute_signature` of the
/// inputs.
pub proof fn lemma_compute_signature_deterministic(
    payload: Seq<char>,
    secret: Seq<char>,
    r1: Seq<char>,
    r2: Seq<char>,
)
    requires
        r1 == spec_compute_signature(payload, secret),
        r2 == spec_compute_signature(payload, secret),
    ensures
        r1 == r2,
{
}

} // verus!
