//! Ed25519 signatures.

use ed25519_dalek::{Signature, SignatureError, Signer, SigningKey, Verifier, VerifyingKey};
use vstd::prelude::*;

verus! {

/// `ed25519_dalek::SigningKey`, the secret half of a key pair.
#[verifier::external_type_specification]
#[verifier::external_body]
pub struct ExSigningKey(ed25519_dalek::SigningKey);

/// `ed25519_dalek::VerifyingKey`, the public half of a key pair.
#[verifier::external_type_specification]
#[verifier::external_body]
pub struct ExVerifyingKey(ed25519_dalek::VerifyingKey);

/// `ed25519_dalek::SignatureError`, why a key or a signature was refused.
#[verifier::external_type_specification]
#[verifier::external_body]
pub struct ExSignatureError(ed25519_dalek::SignatureError);

/// The number of bytes in a signature.
pub const SIGNATURE_LENGTH: usize = 64;

/// The key that `SigningKey::verifying_key` gives.
pub uninterp spec fn public_half(key: SigningKey) -> VerifyingKey;

/// The bytes that `VerifyingKey::to_bytes` gives.
pub uninterp spec fn public_key_bytes(key: VerifyingKey) -> Seq<u8>;

/// The signature that `SigningKey::sign` gives for a message.
pub uninterp spec fn signature_of(key: SigningKey, message: Seq<u8>) -> Seq<u8>;

/// Whether `VerifyingKey::from_bytes` takes the bytes for a public key.
pub uninterp spec fn is_public_key(bytes: Seq<u8>) -> bool;

/// Whether `VerifyingKey::verify`, for the public key of these bytes, takes the
/// signature for one of the message.
pub uninterp spec fn accepts(public_key: Seq<u8>, message: Seq<u8>, signature: Seq<u8>) -> bool;

/// `SigningKey::verifying_key`.
#[verifier::external_body]
pub(crate) fn verifying_key(key: &SigningKey) -> (public: VerifyingKey)
    ensures
        public == public_half(*key),
{
    key.verifying_key()
}

/// `VerifyingKey::to_bytes`. The bytes are those of a public key.
#[verifier::external_body]
pub(crate) fn key_to_bytes(key: &VerifyingKey) -> (bytes: [u8; 32])
    ensures
        bytes@ == public_key_bytes(*key),
        is_public_key(bytes@),
{
    key.to_bytes()
}

/// `VerifyingKey::from_bytes`. A key that is read from bytes has these bytes.
#[verifier::external_body]
pub(crate) fn key_from_bytes(bytes: &[u8; 32]) -> (key: Result<VerifyingKey, SignatureError>)
    ensures
        key is Ok <==> is_public_key(bytes@),
        key matches Ok(read) ==> public_key_bytes(read) == bytes@,
{
    VerifyingKey::from_bytes(bytes)
}

/// `SigningKey::sign`. The public half accepts the signature for the message.
#[verifier::external_body]
pub(crate) fn sign_message(key: &SigningKey, message: &[u8]) -> (signature: [u8; 64])
    ensures
        signature@ == signature_of(*key, message@),
        accepts(public_key_bytes(public_half(*key)), message@, signature@),
{
    key.sign(message).to_bytes()
}

/// `VerifyingKey::verify`.
#[verifier::external_body]
pub(crate) fn check_signature(
    key: &VerifyingKey,
    message: &[u8],
    signature: &[u8; 64],
) -> (verdict: Result<(), SignatureError>)
    ensures
        verdict is Ok <==> accepts(public_key_bytes(*key), message@, signature@),
{
    key.verify(message, &Signature::from_bytes(signature))
}

/// Why a signed record was refused.
#[derive(Debug, Clone, Copy, PartialEq, Eq, Structural)]
pub enum SealError {
    /// The record's public key is none.
    InvalidPublicKey,
    /// The record's signature is not of a signature's length.
    InvalidSignatureLength,
    /// The record could not be encoded.
    Encoding,
    /// The canonical payload is not the encoding of the declared payload.
    PayloadMismatch,
    /// The signature is not one of the record's message under its public key.
    SignatureRejected,
}

/// The bytes of a signature, where they are as many as a signature has.
pub(crate) fn signature_array(bytes: &Vec<u8>) -> (signature: Option<[u8; 64]>)
    ensures
        signature is Some <==> bytes@.len() == SIGNATURE_LENGTH,
        signature matches Some(array) ==> array@ == bytes@,
{
    if bytes.len() != SIGNATURE_LENGTH {
        return None;
    }
    let mut array: [u8; 64] = [0u8; 64];
    let mut i: usize = 0;
    while i < SIGNATURE_LENGTH
        invariant
            bytes.len() == SIGNATURE_LENGTH,
            i <= SIGNATURE_LENGTH,
            forall|j: int| 0 <= j < i ==> array@[j] == #[trigger] bytes@[j],
        decreases SIGNATURE_LENGTH - i,
    {
        array[i] = bytes[i];
        i += 1;
    }
    assert(array@ =~= bytes@);
    Some(array)
}

/// The bytes of a signature as a vector.
pub(crate) fn signature_vec(signature: &[u8; 64]) -> (bytes: Vec<u8>)
    ensures
        bytes@ == signature@,
{
    let mut bytes: Vec<u8> = Vec::with_capacity(SIGNATURE_LENGTH);
    let mut i: usize = 0;
    while i < SIGNATURE_LENGTH
        invariant
            i <= SIGNATURE_LENGTH,
            bytes@ == signature@.take(i as int),
        decreases SIGNATURE_LENGTH - i,
    {
        bytes.push(signature[i]);
        i += 1;
    }
    assert(signature@.take(i as int) =~= signature@);
    bytes
}

/// Whether two byte strings are equal.
pub(crate) fn same_bytes(a: &Vec<u8>, b: &Vec<u8>) -> (same: bool)
    ensures
        same == (a@ == b@),
{
    if a.len() != b.len() {
        return false;
    }
    let mut i: usize = 0;
    while i < a.len()
        invariant
            a.len() == b.len(),
            i <= a.len(),
            forall|j: int| 0 <= j < i ==> a@[j] == #[trigger] b@[j],
        decreases a.len() - i,
    {
        if a[i] != b[i] {
            return false;
        }
        i += 1;
    }
    assert(a@ =~= b@);
    true
}

} // verus!
