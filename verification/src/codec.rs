//! Byte codecs the launcher relies on: SHA-256 digests and standard
//! (padded) Base64, both computed by outside crates.

use vstd::prelude::*;
use base64::Engine;
use sha2::Digest;

verus! {

/// The SHA-256 digest of `data`.
pub uninterp spec fn sha256_digest(data: Seq<u8>) -> Seq<u8>;

/// Standard, padded Base64 (RFC 4648 alphabet) of `data`.
pub uninterp spec fn base64_text(data: Seq<u8>) -> Seq<char>;

/// The bytes that standard, padded Base64 text `text` decodes to, or `None`
/// when the text is not valid.
pub uninterp spec fn base64_bytes(text: Seq<char>) -> Option<Seq<u8>>;

/// Calls `sha2::Sha256::digest`. The result is named [`sha256_digest`] of
/// the input; that a digest is 32 bytes is the one fact stated of it.
#[verifier::external_body]
pub(crate) fn sha256(data: &[u8]) -> (r: Vec<u8>)
    ensures
        r@ == sha256_digest(data@),
        r@.len() == 32,
{
    sha2::Sha256::digest(data).to_vec()
}

/// Calls `base64::engine::general_purpose::STANDARD.encode`. The result is
/// named [`base64_text`] of the input; nothing else is stated of it.
#[verifier::external_body]
pub(crate) fn base64_encode(data: &[u8]) -> (r: String)
    ensures
        r@ == base64_text(data@),
{
    base64::engine::general_purpose::STANDARD.encode(data)
}

/// Calls `base64::engine::general_purpose::STANDARD.decode`. The bytes of a
/// successful decode are named [`base64_bytes`] of the input, and an error
/// (carried as its message) comes exactly when that name is `None`.
#[verifier::external_body]
pub(crate) fn base64_decode(text: &str) -> (r: Result<Vec<u8>, String>)
    ensures
        match r {
            Ok(b) => base64_bytes(text@) == Some(b@),
            Err(_) => base64_bytes(text@) is None,
        },
{
    base64::engine::general_purpose::STANDARD.decode(text).map_err(|e| e.to_string())
}

/// The digest under which a cached jar's content is compared with the
/// `sha256` attribute of its JNLP entry: Base64 of its SHA-256.
pub open spec fn jar_digest(data: Seq<u8>) -> Seq<char> {
    base64_text(sha256_digest(data))
}

/// Executable [`jar_digest`].
pub fn sha256_base64(data: &[u8]) -> (r: String)
    ensures
        r@ == jar_digest(data@),
{
    let d = sha256(data);
    base64_encode(d.as_slice())
}

} // verus!
