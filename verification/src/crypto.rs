//! The calls into outside crates: hashing, HMAC, HKDF, X25519, base64,
//! certificates, randomness and the host name. Each function here is
//! trusted: its contract states what the crate's documentation or source
//! promises, over names for results that take pages to state; where the
//! result depends on chance or on the machine, nothing is stated of it.

use rand::RngCore;
use rcgen::{CertificateParams, KeyPair};
use sha2::Digest;
use vstd::prelude::*;

verus! {

/// The SHA-256 digest of a byte string (FIPS 180-4).
pub uninterp spec fn sha256(data: Seq<u8>) -> Seq<u8>;

/// Calls `sha2::Sha256::digest`: the result is the SHA-256 digest of `data`,
/// which is always 32 bytes long.
#[verifier::external_body]
pub fn sha256_digest(data: &[u8]) -> (r: Vec<u8>)
    ensures
        r@ == sha256(data@),
        r@.len() == 32,
{
    sha2::Sha256::digest(data).to_vec()
}


/// Calls `OsRng::fill_bytes` on sixteen bytes. They come from the operating
/// system's random source: nothing is stated of their values.
#[verifier::external_body]
pub(crate) fn random_16() -> (r: [u8; 16]) {
    let mut bytes = [0u8; 16];
    rand::rngs::OsRng.fill_bytes(&mut bytes);
    bytes
}

#[verifier::external_type_specification]
#[verifier::external_body]
pub struct ExKeyPair(KeyPair);

#[verifier::external_type_specification]
#[verifier::external_body]
pub struct ExRcgenError(rcgen::Error);

/// Calls `rcgen::KeyPair::generate`: a fresh random ECDSA P-256 key pair, or
/// the crate's error. Nothing is stated of the key.
#[verifier::external_body]
pub(crate) fn generate_key_pair() -> (r: Result<KeyPair, rcgen::Error>) {
    KeyPair::generate()
}

/// Calls `KeyPair::serialize_der`: the key pair in DER. Nothing is stated of the bytes.
#[verifier::external_body]
pub(crate) fn key_pair_der(key: &KeyPair) -> (r: Vec<u8>) {
    key.serialize_der()
}

/// A key usage that a certificate is issued for.
#[derive(Debug, Clone, Copy, PartialEq, Eq, Structural)]
pub enum KeyUsage {
    DigitalSignature,
    KeyEncipherment,
}

/// An extended key usage that a certificate is issued for.
#[derive(Debug, Clone, Copy, PartialEq, Eq, Structural)]
pub enum ExtendedKeyUsage {
    ServerAuth,
    ClientAuth,
}

/// What a self-signed certificate is requested for: the names it is issued
/// to and what its key may be used for.
pub struct CertRequest {
    pub subject_alt_names: Vec<String>,
    pub key_usages: Vec<KeyUsage>,
    pub extended_key_usages: Vec<ExtendedKeyUsage>,
}

/// Calls `CertificateParams::new` with the request's names, sets the
/// parameters' `key_usages` and `extended_key_usages` to the request's, in
/// order, then calls `CertificateParams::self_signed` and `Certificate::der`:
/// the certificate signed with `key`, in DER, or the crate's error. Nothing
/// is stated of the bytes, which carry a fresh signature.
#[verifier::external_body]
pub(crate) fn self_signed_der(req: &CertRequest, key: &KeyPair) -> (r: Result<Vec<u8>, rcgen::Error>) {
    let mut params = CertificateParams::new(req.subject_alt_names.clone())?;
    params.key_usages = req.key_usages.iter().map(|u| match u {
        KeyUsage::DigitalSignature => rcgen::KeyUsagePurpose::DigitalSignature,
        KeyUsage::KeyEncipherment => rcgen::KeyUsagePurpose::KeyEncipherment,
    }).collect();
    params.extended_key_usages = req.extended_key_usages.iter().map(|u| match u {
        ExtendedKeyUsage::ServerAuth => rcgen::ExtendedKeyUsagePurpose::ServerAuth,
        ExtendedKeyUsage::ClientAuth => rcgen::ExtendedKeyUsagePurpose::ClientAuth,
    }).collect();
    Ok(params.self_signed(key)?.der().to_vec())
}

/// Calls `rcgen::Error`'s `Display`: the message. Nothing is stated of it.
#[verifier::external_body]
pub(crate) fn rcgen_error_message(e: &rcgen::Error) -> (r: String) {
    e.to_string()
}


/// Calls `OsRng::fill_bytes` on thirty-two bytes, the way
/// `StaticSecret::random_from_rng` draws a secret. They come from the
/// operating system's random source: nothing is stated of their values.
#[verifier::external_body]
pub(crate) fn random_32() -> (r: [u8; 32]) {
    let mut bytes = [0u8; 32];
    rand::rngs::OsRng.fill_bytes(&mut bytes);
    bytes
}

/// Calls `rng.gen_range(0..1000)` on `OsRng`: a random number below 1000,
/// as its documentation promises. Nothing else is stated of it.
#[verifier::external_body]
pub(crate) fn random_below_1000() -> (r: u32)
    ensures
        r < 1000,
{
    rand::Rng::gen_range(&mut rand::rngs::OsRng, 0..1000u32)
}

/// The X25519 public key of a secret: the secret, clamped, times the base point.
pub uninterp spec fn x25519_base(secret: Seq<u8>) -> Seq<u8>;

/// The X25519 function: the secret, clamped, times the point `public`.
pub uninterp spec fn x25519(secret: Seq<u8>, public: Seq<u8>) -> Seq<u8>;

/// Calls `PublicKey::from(&StaticSecret::from(secret))`: the public key of
/// the secret. Any other secret, taken with this public key, gives the same
/// shared secret as this secret taken with the other's public key: both are
/// the product of the two clamped secrets and the base point.
#[verifier::external_body]
pub(crate) fn x25519_public_key(secret: &[u8; 32]) -> (r: [u8; 32])
    ensures
        r@ == x25519_base(secret@),
        forall|other: Seq<u8>|
            other.len() == 32 ==> #[trigger] x25519(other, r@) == x25519(
                secret@,
                x25519_base(other),
            ),
{
    x25519_dalek::PublicKey::from(&x25519_dalek::StaticSecret::from(*secret)).to_bytes()
}

/// Calls `StaticSecret::diffie_hellman` with the secret and the public key
/// made of `public`: the shared secret.
#[verifier::external_body]
pub(crate) fn x25519_shared_secret(secret: &[u8; 32], public: &[u8; 32]) -> (r: [u8; 32])
    ensures
        r@ == x25519(secret@, public@),
{
    x25519_dalek::StaticSecret::from(*secret).diffie_hellman(
        &x25519_dalek::PublicKey::from(*public),
    ).to_bytes()
}

/// HKDF-SHA256 (RFC 5869) with the given salt, input key material and info,
/// expanded to thirty-two bytes.
pub uninterp spec fn hkdf_sha256_okm32(salt: Seq<u8>, ikm: Seq<u8>, info: Seq<u8>) -> Seq<u8>;

/// Calls `Hkdf::<Sha256>::new(Some(salt), ikm)` and `expand(info, ..)` into
/// thirty-two bytes. `expand` refuses only outputs longer than 255 hash
/// lengths, so it succeeds here.
#[verifier::external_body]
pub(crate) fn hkdf_sha256_32(salt: &[u8], ikm: &[u8], info: &[u8]) -> (r: Option<[u8; 32]>)
    ensures
        r is Some,
        r->Some_0@ == hkdf_sha256_okm32(salt@, ikm@, info@),
{
    let hk = hkdf::Hkdf::<sha2::Sha256>::new(Some(salt), ikm);
    let mut okm = [0u8; 32];
    match hk.expand(info, &mut okm) {
        Ok(()) => Some(okm),
        Err(_) => None,
    }
}

/// HMAC-SHA256 (RFC 2104) of `data` under `key`.
pub uninterp spec fn hmac_sha256(key: Seq<u8>, data: Seq<u8>) -> Seq<u8>;

/// Calls `Hmac::<Sha256>::new_from_slice`, `update` and `finalize`: the
/// thirty-two byte tag. HMAC takes keys of any length, so the key is never
/// refused.
#[verifier::external_body]
pub(crate) fn hmac_sha256_tag(key: &[u8], data: &[u8]) -> (r: Option<Vec<u8>>)
    ensures
        r is Some,
        r->Some_0@ == hmac_sha256(key@, data@),
        r->Some_0@.len() == 32,
{
    match <hmac::Hmac<sha2::Sha256> as hmac::Mac>::new_from_slice(key) {
        Ok(mut mac) => {
            hmac::Mac::update(&mut mac, data);
            Some(hmac::Mac::finalize(mac).into_bytes().to_vec())
        },
        Err(_) => None,
    }
}

/// Standard base64 without padding (RFC 4648, section 4).
pub uninterp spec fn base64_no_pad(bytes: Seq<u8>) -> Seq<char>;

/// What standard base64 without padding decodes a text to, where it decodes.
pub uninterp spec fn base64_no_pad_decode(text: Seq<char>) -> Option<Seq<u8>>;

/// Calls `STANDARD_NO_PAD.encode`. The text decodes back to the bytes.
#[verifier::external_body]
pub(crate) fn base64_encode(bytes: &[u8]) -> (r: String)
    ensures
        r@ == base64_no_pad(bytes@),
        base64_no_pad_decode(r@) == Some(bytes@),
{
    base64::Engine::encode(&base64::engine::general_purpose::STANDARD_NO_PAD, bytes)
}

/// Calls `STANDARD_NO_PAD.decode` on the text's bytes. The encoding of some
/// bytes decodes to those bytes.
#[verifier::external_body]
pub(crate) fn base64_decode(text: &str) -> (r: Option<Vec<u8>>)
    ensures
        r is Some == base64_no_pad_decode(text@) is Some,
        r is Some ==> r->Some_0@ == base64_no_pad_decode(text@)->Some_0,
        forall|b: Seq<u8>| #[trigger] base64_no_pad(b) == text@ ==> r is Some && r->Some_0@ == b,
{
    base64::Engine::decode(&base64::engine::general_purpose::STANDARD_NO_PAD, text.as_bytes()).ok()
}

/// Standard base64 with padding (RFC 4648, section 4).
pub uninterp spec fn base64_padded(bytes: Seq<u8>) -> Seq<char>;

/// Calls `STANDARD.encode`.
#[verifier::external_body]
pub(crate) fn base64_standard_encode(bytes: &[u8]) -> (r: String)
    ensures
        r@ == base64_padded(bytes@),
{
    base64::Engine::encode(&base64::engine::general_purpose::STANDARD, bytes)
}

/// Calls `hostname::get` and `OsString::into_string`: the machine's host
/// name where it is valid Unicode. It depends on the machine: nothing is
/// stated of it.
#[verifier::external_body]
pub(crate) fn host_name() -> (r: Option<String>) {
    match hostname::get() {
        Ok(name) => name.into_string().ok(),
        Err(_) => None,
    }
}

} // verus!
