//! The cryptographic primitives the checks rely on: SHA3-256 and Ed25519
//! signature verification.

use ed25519_dalek::{Signer, Verifier};
use sha3::Digest;
use vstd::prelude::*;

verus! {

/// What SHA3-256 gives for `data`.
pub uninterp spec fn sha3_256(data: Seq<u8>) -> Seq<u8>;

/// Whether `key` is the encoding of an Ed25519 verifying key (a 32-byte
/// compressed Edwards point that decompresses).
pub uninterp spec fn ed25519_key_decodes(key: Seq<u8>) -> bool;

/// Whether `signature` is a valid Ed25519 signature of `message` under the
/// verifying key encoded by `key`.
pub uninterp spec fn ed25519_verifies(key: Seq<u8>, message: Seq<u8>, signature: Seq<u8>) -> bool;

/// SHA3-256 over `data`.
///
/// Trusted: wraps `sha3::Sha3_256::digest`; the contract names the 32-byte
/// digest, a function of the input bytes alone.
#[verifier::external_body]
pub fn hash256(data: &[u8]) -> (h: [u8; 32])
    ensures
        h@ == sha3_256(data@),
{
    sha3::Sha3_256::digest(data).into()
}

/// Whether `key` decodes as an Ed25519 verifying key.
///
/// Trusted: wraps `<ed25519_dalek::VerifyingKey as TryFrom<&[u8]>>::try_from`,
/// which fails on any length but 32 and on a point that does not
/// decompress; the contract names the outcome and states the length rule.
#[verifier::external_body]
fn verifying_key_decodes(key: &[u8]) -> (b: bool)
    ensures
        b == ed25519_key_decodes(key@),
        key@.len() != 32 ==> !b,
{
    ed25519_dalek::VerifyingKey::try_from(key).is_ok()
}

/// Whether `signature` decodes as an Ed25519 signature.
///
/// Trusted: wraps `ed25519_dalek::Signature::from_slice`, which succeeds
/// exactly on 64-byte inputs.
#[verifier::external_body]
fn signature_decodes(signature: &[u8]) -> (b: bool)
    ensures
        b == (signature@.len() == 64),
{
    ed25519_dalek::Signature::from_slice(signature).is_ok()
}

/// Whether `signature` verifies over `message` under `key`.
///
/// Trusted: wraps `ed25519_dalek::VerifyingKey::verify` (the `Verifier`
/// trait), after decoding the key and the signature, which the `requires`
/// guarantees to succeed; the contract names the outcome.
#[verifier::external_body]
fn signature_verifies(key: &[u8], message: &[u8], signature: &[u8]) -> (b: bool)
    requires
        ed25519_key_decodes(key@),
        signature@.len() == 64,
    ensures
        b == ed25519_verifies(key@, message@, signature@),
{
    let vk = ed25519_dalek::VerifyingKey::try_from(key).unwrap();
    let sig = ed25519_dalek::Signature::from_slice(signature).unwrap();
    vk.verify(message, &sig).is_ok()
}

/// The encoded Ed25519 verifying key of the signing key with secret bytes
/// `secret`.
pub uninterp spec fn ed25519_public_key(secret: Seq<u8>) -> Seq<u8>;

/// The Ed25519 signature (deterministic, RFC 8032) of `message` under the
/// signing key with secret bytes `secret`.
pub uninterp spec fn ed25519_signature(secret: Seq<u8>, message: Seq<u8>) -> Seq<u8>;

/// The secret bytes of a fresh Ed25519 signing key.
///
/// Trusted: wraps `ed25519_dalek::SigningKey::generate` with the operating
/// system's random number generator; nothing is stated of the bytes, which
/// come from chance.
#[verifier::external_body]
pub(crate) fn generate_signing_key() -> (k: [u8; 32]) {
    ed25519_dalek::SigningKey::generate(&mut rand_core::OsRng).to_bytes()
}

/// The encoded verifying key of the signing key with secret bytes `secret`.
///
/// Trusted: wraps `ed25519_dalek::SigningKey::verifying_key` and
/// `VerifyingKey::to_bytes`; the contract names the key and states that it
/// decodes again (it is the compression of a point on the curve).
#[verifier::external_body]
pub(crate) fn verifying_key_of(secret: &[u8; 32]) -> (k: [u8; 32])
    ensures
        k@ == ed25519_public_key(secret@),
        ed25519_key_decodes(k@),
{
    ed25519_dalek::SigningKey::from_bytes(secret).verifying_key().to_bytes()
}

/// Signs `message` with the signing key with secret bytes `secret`.
///
/// Trusted: wraps `ed25519_dalek::SigningKey::sign` (the `Signer` trait)
/// and `Signature::to_bytes`; the contract names the signature and states
/// that it verifies over `message` under the key's own verifying key.
#[verifier::external_body]
pub(crate) fn sign(secret: &[u8; 32], message: &[u8]) -> (s: [u8; 64])
    ensures
        s@ == ed25519_signature(secret@, message@),
        ed25519_verifies(ed25519_public_key(secret@), message@, s@),
{
    ed25519_dalek::SigningKey::from_bytes(secret).sign(message).to_bytes()
}

/// Why a signature did not verify.
#[derive(Debug, Clone, Copy, PartialEq, Eq, Structural)]
pub enum SignatureFailure {
    /// The verifying key does not decode.
    MalformedKey,
    /// The signature is not 64 bytes.
    MalformedSignature,
    /// The signature does not verify over the message.
    VerificationFailed,
}

/// The outcome of checking `signature` over `message` under `key`: `None`
/// when it verifies, else the first reason it does not.
pub open spec fn spec_signature_failure(key: Seq<u8>, message: Seq<u8>, signature: Seq<u8>) -> Option<
    SignatureFailure,
> {
    if !ed25519_key_decodes(key) {
        Some(SignatureFailure::MalformedKey)
    } else if signature.len() != 64 {
        Some(SignatureFailure::MalformedSignature)
    } else if !ed25519_verifies(key, message, signature) {
        Some(SignatureFailure::VerificationFailed)
    } else {
        None
    }
}

/// Verifies an Ed25519 signature; returns the reason on any failure
/// (malformed key, malformed signature, or verification failure).
pub fn verify_signature(key: &[u8], message: &[u8], signature: &[u8]) -> (r: Option<SignatureFailure>)
    ensures
        r == spec_signature_failure(key@, message@, signature@),
{
    if !verifying_key_decodes(key) {
        return Some(SignatureFailure::MalformedKey);
    }
    if !signature_decodes(signature) {
        return Some(SignatureFailure::MalformedSignature);
    }
    if !signature_verifies(key, message, signature) {
        return Some(SignatureFailure::VerificationFailed);
    }
    None
}

} // verus!
