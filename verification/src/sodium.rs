//! What this crate relies on of libsodium's Ed25519 signatures and random bytes.
//!
//! Nothing here is proved: each item says what a function of `sodiumoxide` does.
use sodiumoxide::crypto::sign;
use vstd::prelude::*;

verus! {

/// The secret key type of `sodiumoxide`, 64 bytes that are wiped when the key is dropped.
#[verifier::external_type_specification]
#[verifier::external_body]
pub struct ExSecretKey(sign::SecretKey);

/// The public key type of `sodiumoxide`, 32 bytes.
#[verifier::external_type_specification]
#[verifier::external_body]
pub struct ExPublicKey(sign::PublicKey);

/// The seed type of `sodiumoxide`, 32 bytes that are wiped when the seed is dropped.
#[verifier::external_type_specification]
#[verifier::external_body]
pub struct ExSeed(sign::Seed);

/// The signature type that `sodiumoxide` takes from the crate `ed25519`, 64 bytes.
#[verifier::external_type_specification]
#[verifier::external_body]
pub struct ExSignature(sign::Signature);

/// The error that comes where bytes are no signature.
#[verifier::external_type_specification]
#[verifier::external_body]
pub struct ExSignatureError(sign::Error);

/// The bytes that a secret key holds.
pub uninterp spec fn secret_key_bytes(key: sign::SecretKey) -> Seq<u8>;

/// The bytes that a public key holds.
pub uninterp spec fn public_key_bytes(key: sign::PublicKey) -> Seq<u8>;

/// The bytes that a seed holds.
pub uninterp spec fn seed_bytes(seed: sign::Seed) -> Seq<u8>;

/// The bytes that a signature holds.
pub uninterp spec fn signature_bytes(signature: sign::Signature) -> Seq<u8>;

/// The public key that Ed25519 derives from a seed of 32 bytes.
pub uninterp spec fn ed25519_public_key(seed: Seq<u8>) -> Seq<u8>;

/// The Ed25519 signature of a message under a secret key of 64 bytes.
pub uninterp spec fn ed25519_signature(message: Seq<u8>, secret_key: Seq<u8>) -> Seq<u8>;

/// Whether Ed25519 accepts a signature of 64 bytes for a message under a public key of 32 bytes.
pub uninterp spec fn ed25519_accepts(
    signature: Seq<u8>,
    message: Seq<u8>,
    public_key: Seq<u8>,
) -> bool;

/// `secret_key` is a seed followed by the public key that is derived from it, and `public_key`
/// is that public key.
pub open spec fn is_key_pair(public_key: Seq<u8>, secret_key: Seq<u8>) -> bool {
    &&& secret_key.len() == 64
    &&& secret_key.skip(32) == public_key
    &&& ed25519_public_key(secret_key.take(32)) == public_key
}

/// Bytes in the form of a signature: 64 of them, the highest three bits of the last one unset.
pub open spec fn is_signature(bytes: Seq<u8>) -> bool {
    bytes.len() == 64 && bytes[63] < 32
}

/// The first half of a signature is the neutral element of the curve, which no verifier accepts:
/// the byte one and 31 zeros.
pub open spec fn starts_neutral(signature: Seq<u8>) -> bool {
    signature[0] == 1 && forall|i: int| 1 <= i < 32 ==> #[trigger] signature[i] == 0
}

/// `sign::SecretKey::from_slice` takes any 64 bytes as a secret key and no other number of bytes.
pub assume_specification[ sign::SecretKey::from_slice ](bs: &[u8]) -> (key: Option<
    sign::SecretKey,
>)
    ensures
        key is Some <==> bs@.len() == 64,
        key matches Some(k) ==> secret_key_bytes(k) == bs@,
;

/// `sign::PublicKey::from_slice` takes any 32 bytes as a public key and no other number of bytes.
pub assume_specification[ sign::PublicKey::from_slice ](bs: &[u8]) -> (key: Option<
    sign::PublicKey,
>)
    ensures
        key is Some <==> bs@.len() == 32,
        key matches Some(k) ==> public_key_bytes(k) == bs@,
;

/// `sign::Seed::from_slice` takes any 32 bytes as a seed and no other number of bytes.
pub assume_specification[ sign::Seed::from_slice ](bs: &[u8]) -> (seed: Option<sign::Seed>)
    ensures
        seed is Some <==> bs@.len() == 32,
        seed matches Some(s) ==> seed_bytes(s) == bs@,
;

/// `sign::keypair_from_seed` derives a public key from the seed; the secret key is the seed
/// followed by that public key.
pub assume_specification[ sign::keypair_from_seed ](seed: &sign::Seed) -> (pair: (
    sign::PublicKey,
    sign::SecretKey,
))
    ensures
        public_key_bytes(pair.0) == ed25519_public_key(seed_bytes(*seed)),
        public_key_bytes(pair.0).len() == 32,
        secret_key_bytes(pair.1).len() == 64,
        secret_key_bytes(pair.1) == seed_bytes(*seed) + public_key_bytes(pair.0),
;

/// `sign::Signature::from_bytes` takes 64 bytes whose last one has its highest three bits unset,
/// and keeps them.
pub assume_specification[ sign::Signature::from_bytes ](bytes: &[u8]) -> (signature: Result<
    sign::Signature,
    sign::Error,
>)
    ensures
        signature is Ok <==> is_signature(bytes@),
        signature matches Ok(s) ==> signature_bytes(s) == bytes@,
;

/// `sign::Signature::as_ref` gives the bytes that the signature holds.
#[verifier::external_body]
pub(crate) fn signature_to_vec(signature: &sign::Signature) -> (bytes: Vec<u8>)
    ensures
        bytes@ == signature_bytes(*signature),
        is_signature(bytes@),
{
    signature.as_ref().to_vec()
}

/// `sign::sign_detached` signs a message. The signature is a function of the message and of the
/// bytes of the key, and the public key of a key pair accepts it. The one exception is a
/// signature whose first half is the neutral element, which comes where a hash of 512 bits is a
/// multiple of the order of the curve.
pub assume_specification[ sign::sign_detached ](m: &[u8], sk: &sign::SecretKey) -> (signature:
    sign::Signature)
    ensures
        signature_bytes(signature) == ed25519_signature(m@, secret_key_bytes(*sk)),
        is_signature(signature_bytes(signature)),
        forall|public_key: Seq<u8>|
            is_key_pair(public_key, secret_key_bytes(*sk)) && !starts_neutral(
                signature_bytes(signature),
            ) ==> #[trigger] ed25519_accepts(signature_bytes(signature), m@, public_key),
;

/// `sign::verify_detached` says whether a signature is valid for a message. It is a function of
/// the bytes of its arguments.
pub assume_specification[ sign::verify_detached ](
    sig: &sign::Signature,
    m: &[u8],
    pk: &sign::PublicKey,
) -> (accepted: bool)
    ensures
        accepted == ed25519_accepts(signature_bytes(*sig), m@, public_key_bytes(*pk)),
;

/// `randombytes::randombytes` gives as many bytes as asked for. Their values are left to chance. On
/// Windows libsodium ends the process where it is asked for more than 0xffff_ffff bytes.
pub assume_specification[ sodiumoxide::randombytes::randombytes ](size: usize) -> (bytes: Vec<u8>)
    requires
        size <= isize::MAX,
        size <= 0xffff_ffff,
    ensures
        bytes@.len() == size,
;

} // verus!
