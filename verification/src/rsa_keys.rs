//! RSA public keys and RSASSA-PKCS1-v1_5 signatures.
use rsa::pkcs1v15::{Signature, VerifyingKey};
use rsa::signature::hazmat::PrehashVerifier;
use vstd::prelude::*;
use x509_cert::spki::DecodePublicKey;

verus! {

/// `rsa::RsaPublicKey`, carried from where it is decoded to where it verifies.
#[verifier::external_type_specification]
#[verifier::external_body]
pub struct ExRsaPublicKey(rsa::RsaPublicKey);

/// What an RSA public key holds.
pub struct RsaKeyModel {
    pub modulus: nat,
    pub exponent: nat,
}

/// The modulus and the exponent that a key holds.
pub uninterp spec fn key_parts(key: rsa::RsaPublicKey) -> RsaKeyModel;

/// The RSA key that a DER-encoded SubjectPublicKeyInfo gives.
pub uninterp spec fn decoded_rsa_key(spki: Seq<u8>) -> Option<RsaKeyModel>;

/// Whether a signature over a SHA-256 digest verifies under a key.
pub uninterp spec fn pkcs1v15_sha256(key: RsaKeyModel, digest: Seq<u8>, signature: Seq<u8>) -> bool;

/// Whether a signature over a SHA-384 digest verifies under a key.
pub uninterp spec fn pkcs1v15_sha384(key: RsaKeyModel, digest: Seq<u8>, signature: Seq<u8>) -> bool;

/// `rsa::RsaPublicKey::from_public_key_der`: which key comes out, and whether one does, depends
/// on the bytes alone.
#[verifier::external_body]
pub(crate) fn decode_rsa_key(spki: &[u8]) -> (key: Option<rsa::RsaPublicKey>)
    ensures
        key is Some <==> decoded_rsa_key(spki@) is Some,
        key matches Some(k) ==> decoded_rsa_key(spki@) == Some(key_parts(k)),
{
    rsa::RsaPublicKey::from_public_key_der(spki).ok()
}

/// `rsa::pkcs1v15::VerifyingKey::<Sha256>::verify_prehash` on a signature read by
/// `rsa::pkcs1v15::Signature::try_from`: the verdict depends on the key's two numbers, the digest
/// and the signature alone.
#[verifier::external_body]
pub(crate) fn verify_sha256(key: &rsa::RsaPublicKey, digest: &[u8], signature: &[u8]) -> (valid: bool)
    ensures
        valid == pkcs1v15_sha256(key_parts(*key), digest@, signature@),
{
    match Signature::try_from(signature) {
        Ok(s) => VerifyingKey::<sha2::Sha256>::new(key.clone()).verify_prehash(digest, &s).is_ok(),
        Err(_) => false,
    }
}

/// `rsa::pkcs1v15::VerifyingKey::<Sha384>::verify_prehash`, as [`verify_sha256`] for SHA-384.
#[verifier::external_body]
pub(crate) fn verify_sha384(key: &rsa::RsaPublicKey, digest: &[u8], signature: &[u8]) -> (valid: bool)
    ensures
        valid == pkcs1v15_sha384(key_parts(*key), digest@, signature@),
{
    match Signature::try_from(signature) {
        Ok(s) => VerifyingKey::<sha2::Sha384>::new(key.clone()).verify_prehash(digest, &s).is_ok(),
        Err(_) => false,
    }
}

} // verus!
