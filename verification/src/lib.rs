//! Verification of HMAC-SHA256 signed webhook payloads.
//!
//! Given a shared secret, a raw request body and a signature header of the
//! form `t=<timestamp>,v1=<hex signature>`, the library decides whether the
//! payload was signed by the holder of the secret: it parses the header,
//! reconstructs the signed string `<t>.<payload>`, computes its HMAC-SHA256
//! signature under the secret and compares it against the received one in
//! constant time.

pub mod header;
pub mod signature;
pub mod text;
pub mod verification;

pub use header::parse_stripe_signature_header;
pub use header::ParseError;
pub use header::SignatureHeader;
pub use signature::compute_signature;
pub use verification::verify;
pub use verification::VerifyError;
