//! Identifiers derived by hashing: PIN digests and session ids.

use vstd::prelude::*;
use sha2::Digest;
use crate::text::{hex_bytes, hex_encode, decimal, string_from_chars};

verus! {

/// The SHA-256 digest of a byte string.
pub uninterp spec fn spec_sha256(bytes: Seq<u8>) -> Seq<u8>;

/// `sha2::Sha256`: a fresh hasher, one `update` with `bytes`, `finalize`. The
/// contract names the digest and states its documented size of 32 bytes.
#[verifier::external_body]
fn sha256(bytes: &[u8]) -> (r: Vec<u8>)
    ensures
        r@ == spec_sha256(bytes@),
        r@.len() == 32,
{
    let mut hasher = sha2::Sha256::new();
    hasher.update(bytes);
    hasher.finalize().to_vec()
}

/// The lowercase hexadecimal SHA-256 digest of a PIN's UTF-8 bytes.
pub fn hash_pin(pin: &str) -> (r: String)
    ensures r@ == hex_bytes(spec_sha256(vstd::utf8::encode_utf8(pin@))),
{
    let d = sha256(pin.as_bytes());
    hex_encode(d.as_slice())
}

/// A session id from random bytes: each byte as two lowercase hexadecimal
/// digits.
pub fn session_id_from_bytes(bytes: &[u8]) -> (r: String)
    ensures r@ == hex_bytes(bytes@),
{
    hex_encode(bytes)
}

/// A session id when no random bytes can be had: the SHA-256 digest of the
/// current time in nanoseconds, written in decimal, as lowercase hexadecimal.
pub fn session_id_from_time(nanos: u128) -> (r: String)
    ensures r@ == hex_bytes(spec_sha256(vstd::utf8::encode_utf8(decimal(nanos as nat)))),
{
    let digits = string_from_chars(&crate::size::u128_to_decimal(nanos));
    let d = sha256(digits.as_str().as_bytes());
    hex_encode(d.as_slice())
}

} // verus!
