//! The signing boundary of the identity codec. The HMAC-SHA256 computation
//! is the one part the library does not perform itself: it is delegated to
//! the `jsonwebtoken` crate behind the two wrappers below, whose results are
//! named by the uninterpreted functions `sign_of` and `sig_check`.
use crate::b64::is_b64_byte;
use vstd::prelude::*;

verus! {

/// The signature string that HMAC-SHA256 signing produces for a key and a
/// message; a function of the two alone.
pub uninterp spec fn sign_of(key: Seq<char>, msg: Seq<char>) -> Seq<char>;

/// Whether a signature string checks out against a key and a message; a
/// function of the three alone.
pub uninterp spec fn sig_check(key: Seq<char>, msg: Seq<char>, sig: Seq<char>) -> bool;

/// Characters of the URL-safe base64 alphabet; in particular ASCII and
/// never a dot.
pub open spec fn b64url_chars(s: Seq<char>) -> bool {
    forall|i: int|
        0 <= i < s.len() ==> '\0' <= #[trigger] s[i] <= '\u{7f}' && is_b64_byte(s[i] as u8)
}

/// The error type of the `jsonwebtoken` crate, carried through opaquely.
#[verifier::external_type_specification]
#[verifier::external_body]
pub struct ExJwtError(jsonwebtoken::errors::Error);

/// Relies on `jsonwebtoken::crypto::sign` with `Algorithm::HS256`: the
/// signature is computed from the key and message bytes alone, and is
/// returned as unpadded URL-safe base64, so it verifies against the same
/// key and message and contains only alphabet characters.
#[verifier::external_body]
pub(crate) fn hs256_sign(key: &str, msg: &str) -> (r: Result<String, jsonwebtoken::errors::Error>)
    ensures
        match r {
            Ok(s) => {
                &&& s@ == sign_of(key@, msg@)
                &&& sig_check(key@, msg@, s@)
                &&& b64url_chars(s@)
            },
            Err(_) => true,
        },
{
    jsonwebtoken::crypto::sign(
        msg.as_bytes(),
        &jsonwebtoken::EncodingKey::from_secret(key.as_bytes()),
        jsonwebtoken::Algorithm::HS256,
    )
}

/// Relies on `jsonwebtoken::crypto::verify` with `Algorithm::HS256`: it
/// recomputes the signature for the key and message and compares, so its
/// outcome is a function of key, message and signature alone. An undecodable
/// signature makes `verify` return its error, which is reported here as a
/// failed check.
#[verifier::external_body]
pub(crate) fn hs256_verify(key: &str, msg: &str, sig: &str) -> (r: bool)
    ensures
        r == sig_check(key@, msg@, sig@),
{
    match jsonwebtoken::crypto::verify(
        sig,
        msg.as_bytes(),
        &jsonwebtoken::DecodingKey::from_secret(key.as_bytes()),
        jsonwebtoken::Algorithm::HS256,
    ) {
        Ok(b) => b,
        Err(_) => false,
    }
}

} // verus!
