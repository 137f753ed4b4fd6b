//! Trusted bindings to the cryptographic primitives the engine relies on:
//! SHA-256 digests, hex rendering of digests, and Ed25519 signature checks.

use vstd::prelude::*;
use ed25519_dalek::Verifier;

verus! {

/// The SHA-256 digest of a byte string; a fixed function of the bytes alone.
pub uninterp spec fn sha256_of(data: Seq<u8>) -> Seq<u8>;

/// Relies on sha2's `Sha256` (through `Digest::digest`): the digest has 32
/// bytes and depends on the hashed bytes alone.
#[verifier::external_body]
pub(crate) fn sha256(data: &Vec<u8>) -> (r: Vec<u8>)
    ensures
        r@ == sha256_of(data@),
        r@.len() == 32,
{
    <sha2::Sha256 as sha2::Digest>::digest(data.as_slice()).to_vec()
}

/// Whether `signature` is a valid Ed25519 signature by `public_key` over
/// `message`; a fixed function of the three byte strings. Byte strings that
/// do not parse as a key or a signature never verify.
pub uninterp spec fn sig_ok(public_key: Seq<u8>, message: Seq<u8>, signature: Seq<u8>) -> bool;

/// Relies on ed25519_dalek's `VerifyingKey::verify`: verification is
/// deterministic in the key, message and signature bytes, and malformed key
/// or signature bytes are rejected by the parsers.
#[verifier::external_body]
pub(crate) fn ed25519_verify(public_key: &Vec<u8>, message: &Vec<u8>, signature: &Vec<u8>) -> (r: bool)
    ensures
        r == sig_ok(public_key@, message@, signature@),
{
    let key_bytes: &[u8; 32] = match public_key.as_slice().try_into() {
        Ok(k) => k,
        Err(_) => return false,
    };
    let key = match ed25519_dalek::VerifyingKey::from_bytes(key_bytes) {
        Ok(k) => k,
        Err(_) => return false,
    };
    let sig = match ed25519_dalek::Signature::from_slice(signature.as_slice()) {
        Ok(s) => s,
        Err(_) => return false,
    };
    key.verify(message.as_slice(), &sig).is_ok()
}

/// The lowercase hex digit of a value below sixteen.
pub open spec fn spec_hex_digit(v: u8) -> char
    recommends
        v < 16,
{
    if v < 10 {
        ((v + 48) as char)
    } else {
        ((v + 87) as char)
    }
}

/// The lowercase hex rendering of a byte string: two digits per byte, high
/// nibble first.
pub open spec fn spec_hex(bytes: Seq<u8>) -> Seq<char>
    decreases bytes.len(),
{
    if bytes.len() == 0 {
        Seq::empty()
    } else {
        spec_hex(bytes.drop_last())
            + seq![spec_hex_digit(bytes.last() >> 4), spec_hex_digit(bytes.last() & 0x0f)]
    }
}

/// A hex rendering has two characters per byte.
pub proof fn lemma_spec_hex_len(bytes: Seq<u8>)
    ensures
        spec_hex(bytes).len() == 2 * bytes.len(),
    decreases bytes.len(),
{
    if bytes.len() > 0 {
        lemma_spec_hex_len(bytes.drop_last());
    }
}

/// Relies on hex::encode: two lowercase hex digits per byte, high nibble
/// first, in byte order.
#[verifier::external_body]
pub(crate) fn hex_encode(data: &Vec<u8>) -> (r: String)
    ensures
        r@ == spec_hex(data@),
{
    hex::encode(data.as_slice())
}

} // verus!
