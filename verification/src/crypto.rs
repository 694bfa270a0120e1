//! Digests, signatures and encodings computed by outside crates.

use vstd::prelude::*;

use crate::numbers::bytes_hex_spec;

use base64::Engine;
use ed25519_dalek::Signer;
use sha2::Digest;

verus! {

/// The SHA-256 digest of some bytes.
pub uninterp spec fn sha256_of(data: Seq<u8>) -> Seq<u8>;

/// The Ed25519 signature of `msg` under the signing key whose 32-byte seed is `seed`.
pub uninterp spec fn ed25519_signature_of(seed: Seq<u8>, msg: Seq<u8>) -> Seq<u8>;

/// The MD5 digest of some bytes.
pub uninterp spec fn md5_of(data: Seq<u8>) -> Seq<u8>;

/// The character of the standard base64 alphabet (`A`-`Z`, `a`-`z`, `0`-`9`,
/// `+`, `/`) for a six-bit value.
pub open spec fn b64_digit(v: int) -> char {
    let c: u32 = if v < 26 {
        (65 + v) as u32
    } else if v < 52 {
        (71 + v) as u32
    } else if v < 62 {
        (v - 4) as u32
    } else if v == 62 {
        43u32
    } else {
        47u32
    };
    c as char
}

/// The standard base64 encoding of some bytes, with padding: each three
/// bytes become four characters of six bits each, and a last one or two
/// bytes become four characters ending in `==` or `=`.
pub open spec fn base64_std(d: Seq<u8>) -> Seq<char>
    decreases d.len(),
{
    if d.len() == 0 {
        seq![]
    } else {
        let x0 = d[0] as int;
        let x1 = if d.len() > 1 { d[1] as int } else { 0 };
        let x2 = if d.len() > 2 { d[2] as int } else { 0 };
        let c0 = b64_digit(x0 / 4);
        let c1 = b64_digit((x0 % 4) * 16 + x1 / 16);
        let c2 = if d.len() > 1 { b64_digit((x1 % 16) * 4 + x2 / 64) } else { '=' };
        let c3 = if d.len() > 2 { b64_digit(x2 % 64) } else { '=' };
        let rest = if d.len() > 3 { base64_std(d.skip(3)) } else { seq![] };
        seq![c0, c1, c2, c3] + rest
    }
}

/// `sha2::Sha256` over `data`: named; the digest is 32 bytes long.
#[verifier::external_body]
pub(crate) fn sha256_digest(data: &[u8]) -> (r: Vec<u8>)
    ensures
        r@ == sha256_of(data@),
        r@.len() == 32,
{
    let mut hasher = sha2::Sha256::new();
    hasher.update(data);
    hasher.finalize().to_vec()
}

/// `ed25519_dalek::SigningKey::from_bytes(seed).sign(msg).to_bytes()`: named; a
/// signature is 64 bytes long.
#[verifier::external_body]
pub(crate) fn ed25519_sign(seed: &[u8], msg: &[u8]) -> (r: Vec<u8>)
    requires
        seed@.len() == 32,
    ensures
        r@ == ed25519_signature_of(seed@, msg@),
        r@.len() == 64,
{
    let mut key = [0u8; 32];
    key.copy_from_slice(seed);
    ed25519_dalek::SigningKey::from_bytes(&key).sign(msg).to_bytes().to_vec()
}

/// `hex::encode`: two lowercase hexadecimal digits per byte.
#[verifier::external_body]
pub(crate) fn hex_encode(data: &[u8]) -> (r: String)
    ensures
        r@ == bytes_hex_spec(data@),
{
    hex::encode(data)
}

/// `md5::compute`: named; the digest is 16 bytes long.
#[verifier::external_body]
pub(crate) fn md5_digest(data: &[u8]) -> (r: Vec<u8>)
    ensures
        r@ == md5_of(data@),
        r@.len() == 16,
{
    md5::compute(data).0.to_vec()
}

/// `base64::engine::general_purpose::STANDARD.encode`: the standard alphabet
/// with padding, as `base64_std` states it.
#[verifier::external_body]
pub(crate) fn base64_encode(data: &[u8]) -> (r: String)
    ensures
        r@ == base64_std(data@),
{
    base64::engine::general_purpose::STANDARD.encode(data)
}

} // verus!
