//! Ed25519 key pairs of the Solana SDK, held behind shared references.

use vstd::prelude::*;
use std::sync::Arc;
use solana_sdk::signature::Keypair;
use solana_sdk::signer::Signer;
use crate::pubkey::Pubkey;

verus! {

/// The SDK's Ed25519 key pair; the proofs see nothing inside it.
#[verifier::external_type_specification]
#[verifier::external_body]
pub struct ExKeypair(Keypair);

/// A 64-byte Ed25519 signature.
#[derive(Clone, Copy, Debug, PartialEq, Eq)]
pub struct Signature {
    pub bytes: [u8; 64],
}

/// Why a transaction cannot be signed with what is at hand.
#[derive(Clone, Copy, Debug, PartialEq, Eq)]
pub enum SigningError {
    /// There is less than one signer for each key that has to sign.
    NotEnoughSigners,
    /// There are more signatures than keys that have to sign.
    TooManySigners,
}

/// The public key that a key pair holds.
pub uninterp spec fn keypair_pubkey(keypair: Keypair) -> Pubkey;

/// The signature of a key pair over a message.
pub uninterp spec fn keypair_signature(keypair: Keypair, message: Seq<u8>) -> Seq<u8>;

/// `Signer::pubkey` of a `Keypair`: the public key that the pair holds.
#[verifier::external_body]
pub(crate) fn pubkey_of(keypair: &Keypair) -> (key: Pubkey)
    ensures
        key == keypair_pubkey(*keypair),
{
    Pubkey { bytes: keypair.pubkey().to_bytes() }
}

/// `Keypair::new`: a key pair from the system's random source.
#[verifier::external_body]
pub(crate) fn generate_keypair() -> (keypair: Keypair)
{
    Keypair::new()
}

/// `Arc::clone`: another handle to the same key pair.
#[verifier::external_body]
pub(crate) fn share_keypair(keypair: &Arc<Keypair>) -> (shared: Arc<Keypair>)
    ensures
        shared == *keypair,
{
    Arc::clone(keypair)
}

/// `Signer::sign_message` of a `Keypair`: the 64 bytes of the Ed25519 signature,
/// which the pair and the message determine.
#[verifier::external_body]
pub(crate) fn sign_with(keypair: &Keypair, message: &[u8]) -> (signature: Signature)
    ensures
        signature.bytes@ == keypair_signature(*keypair, message@),
{
    Signature { bytes: keypair.sign_message(message).into() }
}

} // verus!
