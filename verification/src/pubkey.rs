//! Public keys as plain 32-byte values.

use vstd::prelude::*;

verus! {

/// The text of these 32 bytes in Base58, as public keys are printed.
pub uninterp spec fn base58_text(bytes: Seq<u8>) -> Seq<char>;

/// `Display` of the SDK's `Pubkey`: the key in Base58.
#[verifier::external_body]
fn key_text(key: &Pubkey) -> (text: String)
    ensures
        text@ == base58_text(key.bytes@),
{
    solana_sdk::pubkey::Pubkey::new_from_array(key.bytes).to_string()
}

/// A 32-byte account address.
#[derive(Clone, Copy, Debug, Hash, PartialEq, Eq)]
pub struct Pubkey {
    pub bytes: [u8; 32],
}

impl Pubkey {
    /// Wraps 32 raw bytes.
    pub fn new_from_array(bytes: [u8; 32]) -> (key: Pubkey)
        ensures
            key.bytes == bytes,
    {
        Pubkey { bytes }
    }

    /// The raw bytes of the key.
    pub fn to_bytes(&self) -> (bytes: [u8; 32])
        ensures
            bytes == self.bytes,
    {
        self.bytes
    }

    /// The key in Base58.
    pub fn to_string(&self) -> (text: String)
        ensures
            text@ == base58_text(self.bytes@),
    {
        key_text(self)
    }

    /// Byte-wise comparison of two keys.
    pub fn same_key(&self, other: &Pubkey) -> (same: bool)
        ensures
            same == (*self == *other),
    {
        let mut i: usize = 0;
        while i < 32
            invariant
                i <= 32,
                forall|j: int| 0 <= j < i ==> self.bytes[j] == other.bytes[j],
            decreases 32 - i,
        {
            if self.bytes[i] != other.bytes[i] {
                return false;
            }
            i += 1;
        }
        assert(self.bytes =~= other.bytes);
        true
    }
}

} // verus!
