//! Schnorr signatures over the Ristretto group, as FROST has them.

use vstd::prelude::*;

verus! {

/// The key verifies the signature on the message. Bytes that stand for no key
/// or no signature verify nothing.
pub uninterp spec fn frost_verifies(
    verifying_key: Seq<u8>,
    msg: Seq<u8>,
    signature: Seq<u8>,
) -> bool;

/// All signatures of a batch verify together, blinded by numbers drawn from a
/// seed.
pub uninterp spec fn frost_batch_verifies(
    seed: Seq<u8>,
    verifying_keys: Seq<Seq<u8>>,
    msgs: Seq<Seq<u8>>,
    signatures: Seq<Seq<u8>>,
) -> bool;

/// The verifying key of a signing key, if the bytes are a signing key.
pub uninterp spec fn frost_verifying_key(signing_key: Seq<u8>) -> Option<Seq<u8>>;

/// The bytes are a signature.
pub uninterp spec fn frost_signature_decodes(bytes: Seq<u8>) -> bool;

/// A signature to be verified in a batch.
#[derive(Debug)]
pub struct BatchItem {
    pub verifying_key: [u8; 32],
    pub msg: Vec<u8>,
    pub signature: [u8; 64],
}

pub open spec fn keys_of(items: Seq<BatchItem>) -> Seq<Seq<u8>> {
    Seq::new(items.len(), |i: int| items[i].verifying_key@)
}

pub open spec fn msgs_of(items: Seq<BatchItem>) -> Seq<Seq<u8>> {
    Seq::new(items.len(), |i: int| items[i].msg@)
}

pub open spec fn signatures_of(items: Seq<BatchItem>) -> Seq<Seq<u8>> {
    Seq::new(items.len(), |i: int| items[i].signature@)
}

/// `frost_core::VerifyingKey::verify` on a decoded key and a decoded signature:
/// the result is a function of the three byte strings alone.
#[verifier::external_body]
pub(crate) fn verify_one(verifying_key: &[u8; 32], msg: &[u8], signature: &[u8; 64]) -> (r: bool)
    ensures
        r == frost_verifies(verifying_key@, msg@, signature@),
{
    let key = frost_ristretto255::VerifyingKey::deserialize(verifying_key);
    let signature = frost_ristretto255::Signature::deserialize(signature);
    match (key, signature) {
        (Ok(key), Ok(signature)) => key.verify(msg, &signature).is_ok(),
        _ => false,
    }
}

/// `frost_core::batch::Verifier::verify`, with blinding factors drawn from
/// `rand_chacha::ChaCha20Rng` with the seed: the result is a function of the
/// seed and the items alone. An empty batch fails. A batch of signatures each
/// of which verifies by itself passes; that a batch with another signature
/// fails holds only up to chance, and is not claimed.
#[verifier::external_body]
pub(crate) fn verify_batch(seed: [u8; 32], items: &Vec<BatchItem>) -> (r: bool)
    ensures
        r == frost_batch_verifies(
            seed@,
            keys_of(items@),
            msgs_of(items@),
            signatures_of(items@),
        ),
        items@.len() == 0 ==> !r,
        items@.len() > 0 && (forall|i: int|
            0 <= i < items@.len() ==> frost_verifies(
                (#[trigger] items@[i]).verifying_key@,
                items@[i].msg@,
                items@[i].signature@,
            )) ==> r,
{
    let mut verifier = frost_core::batch::Verifier::new();
    for item in items.iter() {
        let key = frost_ristretto255::VerifyingKey::deserialize(&item.verifying_key);
        let signature = frost_ristretto255::Signature::deserialize(&item.signature);
        let (Ok(key), Ok(signature)) = (key, signature) else { return false };
        match frost_core::batch::Item::new(key, signature, &item.msg) {
            Ok(queued) => verifier.queue(queued),
            Err(_) => return false,
        }
    }
    verifier.verify(<rand_chacha::ChaCha20Rng as rand::SeedableRng>::from_seed(seed)).is_ok()
}

/// `rand::RngCore::fill_bytes` of the generator of the operating system: 32
/// bytes, of which nothing is known.
#[verifier::external_body]
pub(crate) fn random_key() -> [u8; 32] {
    let mut key = [0u8; 32];
    rand::RngCore::fill_bytes(&mut rand::rngs::OsRng, &mut key);
    key
}

/// `frost_core::VerifyingKey::from` on a decoded signing key: the result is a
/// function of the bytes alone.
#[verifier::external_body]
pub(crate) fn verifying_key_of(signing_key: &[u8; 32]) -> (r: Option<[u8; 32]>)
    ensures
        match r {
            Some(key) => frost_verifying_key(signing_key@) == Some(key@),
            None => frost_verifying_key(signing_key@) is None,
        },
{
    let key = frost_ristretto255::SigningKey::deserialize(signing_key).ok()?;
    let key = frost_ristretto255::VerifyingKey::from(&key).serialize().ok()?;
    key.try_into().ok()
}

/// `frost_core::SigningKey::sign`, with a nonce drawn from the operating
/// system: whatever the nonce is, the signature decodes, and the key that goes
/// with the signing key verifies it. There is none if the bytes are no signing
/// key.
#[verifier::external_body]
pub(crate) fn sign_with(signing_key: &[u8; 32], msg: &[u8]) -> (r: Option<[u8; 64]>)
    ensures
        r is Some == frost_verifying_key(signing_key@) is Some,
        match r {
            Some(signature) => {
                &&& frost_signature_decodes(signature@)
                &&& frost_verifies(
                    frost_verifying_key(signing_key@)->Some_0,
                    msg@,
                    signature@,
                )
            },
            None => true,
        },
{
    let key = frost_ristretto255::SigningKey::deserialize(signing_key).ok()?;
    let signature = key.sign(rand::rngs::OsRng, msg).serialize().ok()?;
    signature.try_into().ok()
}

/// `frost_core::Signature::deserialize`: whether the bytes are a signature is a
/// function of the bytes alone.
#[verifier::external_body]
pub(crate) fn is_signature(bytes: &[u8; 64]) -> (r: bool)
    ensures
        r == frost_signature_decodes(bytes@),
{
    frost_ristretto255::Signature::deserialize(bytes).is_ok()
}

} // verus!
