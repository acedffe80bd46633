//! Digests and MACs used by the storage engine and the SigV4 verifier.
//!
//! The hash computations come from the `blake3`, `sha2` and `hmac` crates;
//! each result is given a name here, and the rest of the library reasons
//! about those names. The hex renderings are verified against
//! [`crate::text::hex_of`].

use vstd::prelude::*;

verus! {

use crate::text::{hex_of, to_hex_lower};
use vstd::string::StringSliceAdditionalSpecFns;
use sha2::Digest;
use hmac::Mac;

/// The 32-byte BLAKE3 digest of a byte sequence.
pub uninterp spec fn blake3_of(data: Seq<u8>) -> Seq<u8>;

/// The 32-byte SHA-256 digest of a byte sequence.
pub uninterp spec fn sha256_of(data: Seq<u8>) -> Seq<u8>;

/// The 32-byte HMAC-SHA-256 tag over `msg` with key `key`.
pub uninterp spec fn hmac_sha256_of(key: Seq<u8>, msg: Seq<u8>) -> Seq<u8>;

/// Relies on blake3::hash: a 32-byte digest of the input alone.
#[verifier::external_body]
fn blake3_digest(data: &[u8]) -> (r: Vec<u8>)
    ensures
        r@ == blake3_of(data@),
        r@.len() == 32,
{
    blake3::hash(data).as_bytes().to_vec()
}

/// Relies on sha2::Sha256 (the Digest trait): a 32-byte digest of the input
/// alone.
#[verifier::external_body]
fn sha256_digest(data: &[u8]) -> (r: Vec<u8>)
    ensures
        r@ == sha256_of(data@),
        r@.len() == 32,
{
    sha2::Sha256::digest(data).to_vec()
}

/// Relies on hmac::Hmac over SHA-256 (the Mac trait): a 32-byte tag computed
/// from the key and the message alone. HMAC accepts keys of any length, so
/// `new_from_slice` cannot fail here.
#[verifier::external_body]
fn hmac_sha256_tag(key: &[u8], msg: &[u8]) -> (r: Vec<u8>)
    ensures
        r@ == hmac_sha256_of(key@, msg@),
        r@.len() == 32,
{
    let mut mac = <hmac::Hmac<sha2::Sha256> as hmac::KeyInit>::new_from_slice(key)
        .expect("HMAC accepts keys of any length");
    mac.update(msg);
    mac.finalize().into_bytes().to_vec()
}

/// Lowercase hex of the BLAKE3 digest of the UTF-8 bytes of `s`.
pub open spec fn spec_blake3_hex(s: Seq<char>) -> Seq<char> {
    hex_of(blake3_of(vstd::utf8::encode_utf8(s)))
}

/// Lowercase hex of the SHA-256 digest of the UTF-8 bytes of `s`.
pub open spec fn spec_sha256_hex(s: Seq<char>) -> Seq<char> {
    hex_of(sha256_of(vstd::utf8::encode_utf8(s)))
}

/// The BLAKE3 digest of a string, rendered as 64 lowercase hex characters.
pub fn blake3_hex(s: &str) -> (r: String)
    ensures
        r@ == spec_blake3_hex(s@),
        r@.len() == 64,
{
    let digest = blake3_digest(s.as_bytes());
    proof {
        crate::text::lemma_hex_of_len(digest@);
    }
    to_hex_lower(digest.as_slice())
}

/// The SHA-256 digest of a string, rendered as 64 lowercase hex characters.
pub fn sha256_hex(s: &str) -> (r: String)
    ensures
        r@ == spec_sha256_hex(s@),
        r@.len() == 64,
{
    let digest = sha256_digest(s.as_bytes());
    proof {
        crate::text::lemma_hex_of_len(digest@);
    }
    to_hex_lower(digest.as_slice())
}

/// HMAC-SHA-256 with a byte key over the UTF-8 bytes of a string message.
pub fn hmac_sha256(key: &Vec<u8>, msg: &str) -> (r: Vec<u8>)
    ensures
        r@ == hmac_sha256_of(key@, vstd::utf8::encode_utf8(msg@)),
        r@.len() == 32,
{
    hmac_sha256_tag(key.as_slice(), msg.as_bytes())
}

} // verus!
