//! The ECDSA operations over secp256k1, behind trusted wrappers. Every
//! result is a deterministic function of key and message bytes: signing
//! uses the RFC 6979 nonce.

use vstd::prelude::*;
use crate::script_interpreter::ScriptError;

verus! {

/// Whether 32 bytes form a valid secret scalar; what
/// `secp256k1::SecretKey::from_secret_bytes` accepts.
pub uninterp spec fn is_valid_secret_key(secret: Seq<u8>) -> bool;

/// The 33-byte compressed public key derived from a secret key; what
/// `secp256k1::PublicKey::from_secret_key` serializes to.
pub uninterp spec fn pubkey_of(secret: Seq<u8>) -> Seq<u8>;

/// The DER signature of a 32-byte digest under a secret key; what
/// `secp256k1::ecdsa::sign` serializes to with its RFC 6979 nonce.
pub uninterp spec fn ecdsa_sig_der_of(secret: Seq<u8>, msg: Seq<u8>) -> Seq<u8>;

/// Whether bytes parse as a public key; what
/// `secp256k1::PublicKey::from_slice` accepts.
pub uninterp spec fn pubkey_parses(pubkey: Seq<u8>) -> bool;

/// Whether bytes parse as a DER signature; what
/// `secp256k1::ecdsa::Signature::from_der` accepts.
pub uninterp spec fn sig_der_parses(sig_der: Seq<u8>) -> bool;

/// Whether a DER signature verifies for a digest and a public key; what
/// `secp256k1::ecdsa::Signature::verify` reports.
pub uninterp spec fn ecdsa_verifies(msg: Seq<u8>, sig_der: Seq<u8>, pubkey: Seq<u8>) -> bool;

/// Relies on secp256k1's `SecretKey::from_secret_bytes`: whether the 32
/// bytes are a valid scalar depends on the bytes alone.
#[verifier::external_body]
pub fn secret_key_valid(secret: &[u8; 32]) -> (r: bool)
    ensures
        r == is_valid_secret_key(secret@),
{
    secp256k1::SecretKey::from_secret_bytes(*secret).is_ok()
}

/// Relies on secp256k1's `PublicKey::from_secret_key` and
/// `PublicKey::serialize`: the 33-byte compressed encoding of the derived
/// public key, which `PublicKey::from_slice` parses back.
#[verifier::external_body]
pub fn derive_pub_key(secret: &[u8; 32]) -> (r: Vec<u8>)
    requires
        is_valid_secret_key(secret@),
    ensures
        r@ == pubkey_of(secret@),
        r@.len() == 33,
        pubkey_parses(r@),
{
    let sk = secp256k1::SecretKey::from_secret_bytes(*secret).unwrap();
    secp256k1::PublicKey::from_secret_key(&sk).serialize().to_vec()
}

/// Relies on secp256k1's `ecdsa::sign` and `Signature::serialize_der`:
/// a deterministic RFC 6979 signature, serialized as DER of at most 72
/// bytes. `Signature::from_der` parses the serialization back, and
/// `Signature::verify` accepts the fresh, normalized signature for the
/// signed digest under the signer's public key.
#[verifier::external_body]
pub fn sign_der(secret: &[u8; 32], msg: &[u8; 32]) -> (r: Vec<u8>)
    requires
        is_valid_secret_key(secret@),
    ensures
        r@ == ecdsa_sig_der_of(secret@, msg@),
        1 <= r@.len() <= 72,
        sig_der_parses(r@),
        ecdsa_verifies(msg@, r@, pubkey_of(secret@)),
{
    let sk = secp256k1::SecretKey::from_secret_bytes(*secret).unwrap();
    let sig = secp256k1::ecdsa::sign(secp256k1::Message::from_digest(*msg), &sk);
    sig.serialize_der().to_vec()
}

/// Relies on secp256k1's `PublicKey::from_slice`,
/// `ecdsa::Signature::from_der` and `ecdsa::Signature::verify`: parse
/// failures map to the library's errors, and the verdict depends on the
/// digest, signature and key bytes alone.
#[verifier::external_body]
pub fn verify_ecdsa_sig(msg: &[u8; 32], sig_der: &[u8], pubkey: &[u8]) -> (r: Result<
    bool,
    ScriptError,
>)
    ensures
        r == if !pubkey_parses(pubkey@) {
            Err::<bool, ScriptError>(ScriptError::InvalidPubKey)
        } else if !sig_der_parses(sig_der@) {
            Err::<bool, ScriptError>(ScriptError::InvalidSignatureFormat)
        } else {
            Ok::<bool, ScriptError>(ecdsa_verifies(msg@, sig_der@, pubkey@))
        },
{
    let pk = match secp256k1::PublicKey::from_slice(pubkey) {
        Ok(pk) => pk,
        Err(_) => return Err(ScriptError::InvalidPubKey),
    };
    let sig = match secp256k1::ecdsa::Signature::from_der(sig_der) {
        Ok(sig) => sig,
        Err(_) => return Err(ScriptError::InvalidSignatureFormat),
    };
    Ok(sig.verify(secp256k1::Message::from_digest(*msg), &pk).is_ok())
}

} // verus!
