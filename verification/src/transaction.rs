//! Unsigned legacy transactions: a fee payer and instructions, together with what
//! the Solana SDK makes of them.

use vstd::prelude::*;
use std::sync::Arc;
use solana_sdk::signature::Keypair;
use solana_sdk::signer::SignerError;
use solana_sdk::transaction::{Transaction, VersionedTransaction};
use crate::instruction::{copy_instructions, instruction_views, Instruction, InstructionView};
use crate::keypair::{keypair_pubkey, keypair_signature, Signature, SigningError};
use crate::message::{compilable, declares_signer, encodable, is_encodable};
use crate::pubkey::Pubkey;

verus! {

/// The SDK's legacy transaction; the proofs see nothing inside it.
#[verifier::external_type_specification]
#[verifier::external_body]
pub struct ExTransaction(Transaction);

/// The SDK's versioned transaction; the proofs see nothing inside it.
#[verifier::external_type_specification]
#[verifier::external_body]
pub struct ExVersionedTransaction(VersionedTransaction);

/// The SDK's hash, here a recent blockhash; the proofs see nothing inside it.
#[verifier::external_type_specification]
#[verifier::external_body]
pub struct ExHash(solana_sdk::hash::Hash);

/// The SDK's signing error; the proofs see nothing inside it.
#[verifier::external_type_specification]
#[verifier::external_body]
pub struct ExSignerError(SignerError);

/// The account keys that must sign the message compiled from these instructions
/// with this fee payer, in the order of the message's account keys.
pub uninterp spec fn message_signer_keys(fee_payer: Pubkey, instructions: Seq<InstructionView>) -> Seq<
    Pubkey,
>;

/// The wire encoding of the unsigned transaction compiled from these instructions
/// with this fee payer, where it has one.
pub uninterp spec fn transaction_wire_bytes(
    fee_payer: Pubkey,
    instructions: Seq<InstructionView>,
) -> Option<Seq<u8>>;

/// The bytes that are signed for these instructions with this fee payer under
/// this blockhash: the wire encoding of the compiled message.
pub uninterp spec fn message_data_bytes(
    fee_payer: Pubkey,
    instructions: Seq<InstructionView>,
    recent_blockhash: solana_sdk::hash::Hash,
) -> Seq<u8>;

/// The signatures that a transaction carries, each as its 64 bytes, in their order.
pub uninterp spec fn carried_signatures(transaction: Transaction) -> Seq<Seq<u8>>;

/// The bytes of the message that a transaction carries: what its signers sign.
pub uninterp spec fn carried_message_data(transaction: Transaction) -> Seq<u8>;

/// The wire encoding of a transaction as it stands, signed or not, where it has one.
pub uninterp spec fn carried_wire_bytes(transaction: Transaction) -> Option<Seq<u8>>;

/// The signatures that a versioned transaction carries, each as its 64 bytes, in
/// their order.
pub uninterp spec fn versioned_signatures(transaction: VersionedTransaction) -> Seq<Seq<u8>>;

/// The bytes of the message that a versioned transaction carries.
pub uninterp spec fn versioned_message_data(transaction: VersionedTransaction) -> Seq<u8>;

/// What the SDK's signing makes of the transaction compiled from these
/// instructions with this fee payer, given these key pairs and this blockhash.
pub uninterp spec fn try_sign_outcome(
    fee_payer: Pubkey,
    instructions: Seq<InstructionView>,
    signers: Seq<Arc<Keypair>>,
    recent_blockhash: solana_sdk::hash::Hash,
) -> Result<Transaction, SignerError>;

/// Whether two encodings, where there are any, are equally long.
pub open spec fn same_length(one: Option<Seq<u8>>, other: Option<Seq<u8>>) -> bool {
    match (one, other) {
        (Some(a), Some(b)) => a.len() == b.len(),
        (None, None) => true,
        _ => false,
    }
}

/// Whether `signatures` holds at `place` the signature of `signer` over `message`,
/// and `place` is that of the signer's key among `keys`.
pub open spec fn placed_at(
    keys: Seq<Pubkey>,
    signer: Arc<Keypair>,
    message: Seq<u8>,
    signatures: Seq<Seq<u8>>,
    place: int,
) -> bool {
    &&& 0 <= place < keys.len()
    &&& keys[place] == keypair_pubkey(*signer)
    &&& signatures[place] == keypair_signature(*signer, message)
}

/// Whether the signature of `signer` over `message` stands in `signatures` at the
/// place of the signer's key among `keys`.
pub open spec fn has_place(
    keys: Seq<Pubkey>,
    signer: Arc<Keypair>,
    message: Seq<u8>,
    signatures: Seq<Seq<u8>>,
) -> bool {
    exists|place: int| placed_at(keys, signer, message, signatures, place)
}

/// Whether `signatures` holds one signature for each of `keys` and, at the place of
/// its key, the signature of each of `signers` over `message`.
pub open spec fn placed_signatures(
    keys: Seq<Pubkey>,
    signers: Seq<Arc<Keypair>>,
    message: Seq<u8>,
    signatures: Seq<Seq<u8>>,
) -> bool {
    &&& signatures.len() == keys.len()
    &&& forall|i: int|
        0 <= i < signers.len() ==> has_place(keys, #[trigger] signers[i], message, signatures)
}

/// Whether one of `signers` has the key `key`.
pub open spec fn has_signer(signers: Seq<Arc<Keypair>>, key: Pubkey) -> bool {
    exists|i: int| 0 <= i < signers.len() && keypair_pubkey(*#[trigger] signers[i]) == key
}

/// Whether `signers` are the signers that `keys` ask for: the key of each of them
/// is among the keys, and each of the keys has one of them.
pub open spec fn signers_match(keys: Seq<Pubkey>, signers: Seq<Arc<Keypair>>) -> bool {
    &&& forall|i: int|
        0 <= i < signers.len() ==> keys.contains(keypair_pubkey(*#[trigger] signers[i]))
    &&& forall|place: int| 0 <= place < keys.len() ==> has_signer(signers, #[trigger] keys[place])
}

/// What holds of a transaction that the SDK has signed: it carries the message of
/// the instructions under the blockhash, one signature for each key that has to
/// sign, that of each key pair at the place of its key, and it is as long on the
/// wire as the unsigned transaction.
pub open spec fn signed_by_sdk(
    made: Transaction,
    fee_payer: Pubkey,
    instructions: Seq<InstructionView>,
    signers: Seq<Arc<Keypair>>,
    recent_blockhash: solana_sdk::hash::Hash,
) -> bool {
    &&& carried_message_data(made) == message_data_bytes(fee_payer, instructions, recent_blockhash)
    &&& placed_signatures(
        message_signer_keys(fee_payer, instructions),
        signers,
        carried_message_data(made),
        carried_signatures(made),
    )
    &&& same_length(carried_wire_bytes(made), transaction_wire_bytes(fee_payer, instructions))
}

/// The bytes of each of the signatures, in their order.
pub open spec fn signature_bytes(signatures: Seq<Signature>) -> Seq<Seq<u8>> {
    Seq::new(signatures.len(), |i: int| signatures[i].bytes@)
}

/// What is known of the keys in `keys` where they are the required signers of a
/// message: the fee payer comes first, no key comes twice, every other one is
/// declared a signer by some account of some instruction, and every key that an
/// account declares a signer is among them.
pub open spec fn signer_keys_from(
    keys: Seq<Pubkey>,
    fee_payer: Pubkey,
    instructions: Seq<InstructionView>,
) -> bool {
    &&& keys.len() >= 1
    &&& keys[0] == fee_payer
    &&& keys.no_duplicates()
    &&& forall|i: int|
        0 <= i < keys.len() ==> #[trigger] keys[i] == fee_payer || declares_signer(
            instructions,
            keys[i],
        )
    &&& forall|key: Pubkey| #[trigger] declares_signer(instructions, key) ==> keys.contains(key)
}

/// `Transaction::new_with_payer`, then `Message::signer_keys`: the leading account
/// keys of the compiled message, one per required signature. The message puts the
/// fee payer first, lists each key once and marks as signers exactly the keys that
/// some account reference marks so. Compiling fails where a count of the header
/// overflows, which the limits on the counts rule out.
#[verifier::external_body]
pub(crate) fn compile_signer_keys(fee_payer: &Pubkey, instructions: &Vec<Instruction>) -> (keys: Vec<
    Pubkey,
>)
    requires
        compilable(*fee_payer, instruction_views(instructions@)),
    ensures
        keys@ == message_signer_keys(*fee_payer, instruction_views(instructions@)),
        signer_keys_from(keys@, *fee_payer, instruction_views(instructions@)),
{
    let payer: solana_sdk::pubkey::Pubkey = fee_payer.bytes.into();
    let list: Vec<solana_sdk::instruction::Instruction> = instructions.iter().map(|ix| solana_sdk::instruction::Instruction {
        program_id: ix.program_id.bytes.into(),
        accounts: ix.accounts.iter().map(|a| solana_sdk::instruction::AccountMeta {
            pubkey: a.pubkey.bytes.into(),
            is_signer: a.is_signer,
            is_writable: a.is_writable,
        }).collect(),
        data: ix.data.clone(),
    }).collect();
    let transaction = Transaction::new_with_payer(&list, Some(&payer));
    transaction.message.signer_keys().into_iter().map(|key| Pubkey { bytes: key.to_bytes() }).collect()
}

/// `Transaction::new_with_payer`, then `bincode::serialize`: the wire encoding of
/// the unsigned transaction, or nothing where the serializer reports an error.
#[verifier::external_body]
pub(crate) fn serialize_unsigned(fee_payer: &Pubkey, instructions: &Vec<Instruction>) -> (bytes: Option<
    Vec<u8>,
>)
    requires
        compilable(*fee_payer, instruction_views(instructions@)),
    ensures
        match bytes {
            Some(encoded) => transaction_wire_bytes(*fee_payer, instruction_views(instructions@))
                == Some(encoded@),
            None => transaction_wire_bytes(*fee_payer, instruction_views(instructions@)) is None,
        },
{
    let payer: solana_sdk::pubkey::Pubkey = fee_payer.bytes.into();
    let list: Vec<solana_sdk::instruction::Instruction> = instructions.iter().map(|ix| solana_sdk::instruction::Instruction {
        program_id: ix.program_id.bytes.into(),
        accounts: ix.accounts.iter().map(|a| solana_sdk::instruction::AccountMeta {
            pubkey: a.pubkey.bytes.into(),
            is_signer: a.is_signer,
            is_writable: a.is_writable,
        }).collect(),
        data: ix.data.clone(),
    }).collect();
    bincode::serialize(&Transaction::new_with_payer(&list, Some(&payer))).ok()
}

/// `Transaction::new_with_payer`, then `Transaction::try_sign` with the given key
/// pairs under the given blockhash: the signed transaction, or the SDK's error.
/// Signing puts the blockhash into the message, has each key pair sign the bytes of
/// the message and writes its signature at the place of its key among the keys that
/// have to sign; the lists of the transaction keep their lengths. Signing fails
/// where the key of a key pair is not among those keys, and where a place is left
/// with the empty signature, which is that of a key without a key pair: the
/// signature of a key pair is never the empty one, since its first half encodes a
/// point of the prime-order group and 32 zero bytes encode a point of order four.
/// Signing serializes the message, which the limits on lengths make possible.
#[verifier::external_body]
pub(crate) fn sign_unsigned(
    fee_payer: &Pubkey,
    instructions: &Vec<Instruction>,
    signers: &Vec<Arc<Keypair>>,
    recent_blockhash: solana_sdk::hash::Hash,
) -> (signed: Result<Transaction, SignerError>)
    requires
        encodable(*fee_payer, instruction_views(instructions@)),
    ensures
        signed == try_sign_outcome(
            *fee_payer,
            instruction_views(instructions@),
            signers@,
            recent_blockhash,
        ),
        signed is Ok <==> signers_match(
            message_signer_keys(*fee_payer, instruction_views(instructions@)),
            signers@,
        ),
        signed matches Ok(made) ==> signed_by_sdk(
            made,
            *fee_payer,
            instruction_views(instructions@),
            signers@,
            recent_blockhash,
        ),
{
    let payer: solana_sdk::pubkey::Pubkey = fee_payer.bytes.into();
    let list: Vec<solana_sdk::instruction::Instruction> = instructions.iter().map(|ix| solana_sdk::instruction::Instruction {
        program_id: ix.program_id.bytes.into(),
        accounts: ix.accounts.iter().map(|a| solana_sdk::instruction::AccountMeta {
            pubkey: a.pubkey.bytes.into(),
            is_signer: a.is_signer,
            is_writable: a.is_writable,
        }).collect(),
        data: ix.data.clone(),
    }).collect();
    let mut transaction = Transaction::new_with_payer(&list, Some(&payer));
    let keypairs: Vec<&Keypair> = signers.iter().map(|signer| signer.as_ref()).collect();
    transaction.try_sign(&keypairs, recent_blockhash).map(|_| transaction)
}

/// `Message::new_with_blockhash`, then `Message::serialize`: the bytes of the
/// compiled message, which are what the signers sign. Serializing fails where a
/// list is too long for its length prefix, which the limits on lengths rule out.
#[verifier::external_body]
pub(crate) fn serialize_message(
    fee_payer: &Pubkey,
    instructions: &Vec<Instruction>,
    recent_blockhash: &solana_sdk::hash::Hash,
) -> (bytes: Vec<u8>)
    requires
        encodable(*fee_payer, instruction_views(instructions@)),
    ensures
        bytes@ == message_data_bytes(*fee_payer, instruction_views(instructions@), *recent_blockhash),
{
    let payer: solana_sdk::pubkey::Pubkey = fee_payer.bytes.into();
    let list: Vec<solana_sdk::instruction::Instruction> = instructions.iter().map(|ix| solana_sdk::instruction::Instruction {
        program_id: ix.program_id.bytes.into(),
        accounts: ix.accounts.iter().map(|a| solana_sdk::instruction::AccountMeta {
            pubkey: a.pubkey.bytes.into(),
            is_signer: a.is_signer,
            is_writable: a.is_writable,
        }).collect(),
        data: ix.data.clone(),
    }).collect();
    solana_sdk::message::Message::new_with_blockhash(&list, Some(&payer), recent_blockhash).serialize()
}

/// `Message::new_with_blockhash`, put into a `Transaction` together with the given
/// signatures: the transaction carries these signatures in the given order, and
/// its message is the one whose bytes `Message::serialize` gives for the same
/// instructions, fee payer and blockhash. With one signature for each key that has
/// to sign, it is as long on the wire as the unsigned transaction, which carries
/// one empty signature for each of them.
#[verifier::external_body]
pub(crate) fn assemble_signed(
    fee_payer: &Pubkey,
    instructions: &Vec<Instruction>,
    recent_blockhash: &solana_sdk::hash::Hash,
    signatures: &Vec<Signature>,
) -> (signed: Transaction)
    requires
        encodable(*fee_payer, instruction_views(instructions@)),
    ensures
        carried_signatures(signed) == signature_bytes(signatures@),
        carried_message_data(signed) == message_data_bytes(
            *fee_payer,
            instruction_views(instructions@),
            *recent_blockhash,
        ),
        signatures@.len() == message_signer_keys(*fee_payer, instruction_views(instructions@)).len()
            ==> same_length(
            carried_wire_bytes(signed),
            transaction_wire_bytes(*fee_payer, instruction_views(instructions@)),
        ),
{
    let payer: solana_sdk::pubkey::Pubkey = fee_payer.bytes.into();
    let list: Vec<solana_sdk::instruction::Instruction> = instructions.iter().map(|ix| solana_sdk::instruction::Instruction {
        program_id: ix.program_id.bytes.into(),
        accounts: ix.accounts.iter().map(|a| solana_sdk::instruction::AccountMeta {
            pubkey: a.pubkey.bytes.into(),
            is_signer: a.is_signer,
            is_writable: a.is_writable,
        }).collect(),
        data: ix.data.clone(),
    }).collect();
    Transaction {
        signatures: signatures.iter().map(|made| made.bytes.into()).collect(),
        message: solana_sdk::message::Message::new_with_blockhash(&list, Some(&payer), recent_blockhash),
    }
}

/// `VersionedTransaction::from`: the legacy transaction in the versioned envelope,
/// with the same signatures and the same message.
#[verifier::external_body]
pub(crate) fn into_versioned(transaction: Transaction) -> (versioned: VersionedTransaction)
    ensures
        versioned_signatures(versioned) == carried_signatures(transaction),
        versioned_message_data(versioned) == carried_message_data(transaction),
{
    VersionedTransaction::from(transaction)
}

/// A fee payer and a list of instructions that the legacy wire format can hold,
/// with the keys that have to sign for them.
#[derive(Debug)]
pub struct UnsignedTransaction {
    fee_payer: Pubkey,
    instructions: Vec<Instruction>,
    signer_keys: Vec<Pubkey>,
}

/// What an unsigned transaction holds.
pub struct UnsignedTransactionView {
    pub fee_payer: Pubkey,
    pub instructions: Seq<InstructionView>,
    pub signer_keys: Seq<Pubkey>,
}

impl UnsignedTransactionView {
    /// The instructions fit the wire format and the signer keys are those of the
    /// compiled message.
    pub open spec fn valid(self) -> bool {
        &&& encodable(self.fee_payer, self.instructions)
        &&& self.signer_keys == message_signer_keys(self.fee_payer, self.instructions)
        &&& signer_keys_from(self.signer_keys, self.fee_payer, self.instructions)
    }
}

impl View for UnsignedTransaction {
    type V = UnsignedTransactionView;

    closed spec fn view(&self) -> UnsignedTransactionView {
        UnsignedTransactionView {
            fee_payer: self.fee_payer,
            instructions: instruction_views(self.instructions@),
            signer_keys: self.signer_keys@,
        }
    }
}

impl UnsignedTransaction {
    /// Every unsigned transaction is valid.
    #[verifier::type_invariant]
    pub open spec fn wf(&self) -> bool {
        self@.valid()
    }

    /// The transaction of `instructions` paid by `fee_payer`, where the wire format
    /// can hold it.
    pub fn new_with_payer(instructions: Vec<Instruction>, fee_payer: Pubkey) -> (transaction: Option<
        UnsignedTransaction,
    >)
        ensures
            transaction is Some <==> encodable(fee_payer, instruction_views(instructions@)),
            transaction matches Some(made) ==> made.wf() && made@.fee_payer == fee_payer
                && made@.instructions == instruction_views(instructions@),
    {
        if !is_encodable(&fee_payer, &instructions) {
            return None;
        }
        let signer_keys = compile_signer_keys(&fee_payer, &instructions);
        Some(UnsignedTransaction { fee_payer, instructions, signer_keys })
    }

    pub fn fee_payer(&self) -> (fee_payer: Pubkey)
        ensures
            fee_payer == self@.fee_payer,
    {
        self.fee_payer
    }

    pub fn instructions(&self) -> (instructions: &Vec<Instruction>)
        ensures
            instruction_views(instructions@) == self@.instructions,
    {
        &self.instructions
    }

    /// The keys that have to sign, the fee payer first.
    pub fn signer_keys(&self) -> (keys: &Vec<Pubkey>)
        ensures
            keys@ == self@.signer_keys,
            self.wf(),
    {
        proof {
            use_type_invariant(self);
        }
        &self.signer_keys
    }

    /// The wire encoding of the transaction before anyone signed it.
    pub fn serialize(&self) -> (bytes: Option<Vec<u8>>)
        ensures
            match bytes {
                Some(encoded) => transaction_wire_bytes(self@.fee_payer, self@.instructions) == Some(
                    encoded@,
                ),
                None => transaction_wire_bytes(self@.fee_payer, self@.instructions) is None,
            },
    {
        proof {
            use_type_invariant(self);
        }
        serialize_unsigned(&self.fee_payer, &self.instructions)
    }

    /// The bytes that the signers of the transaction sign under `recent_blockhash`.
    pub fn message_data(&self, recent_blockhash: &solana_sdk::hash::Hash) -> (bytes: Vec<u8>)
        ensures
            bytes@ == message_data_bytes(self@.fee_payer, self@.instructions, *recent_blockhash),
    {
        proof {
            use_type_invariant(self);
        }
        serialize_message(&self.fee_payer, &self.instructions, recent_blockhash)
    }

    /// The transaction under `recent_blockhash` with the given signatures: it
    /// carries them in the given order, over the message of this transaction under
    /// that blockhash.
    pub(crate) fn with_signatures(
        &self,
        recent_blockhash: &solana_sdk::hash::Hash,
        signatures: &Vec<Signature>,
    ) -> (signed: Transaction)
        ensures
            carried_signatures(signed) == signature_bytes(signatures@),
            carried_message_data(signed) == message_data_bytes(
                self@.fee_payer,
                self@.instructions,
                *recent_blockhash,
            ),
            signatures@.len() == self@.signer_keys.len() ==> same_length(
                carried_wire_bytes(signed),
                transaction_wire_bytes(self@.fee_payer, self@.instructions),
            ),
    {
        proof {
            use_type_invariant(self);
        }
        assemble_signed(&self.fee_payer, &self.instructions, recent_blockhash, signatures)
    }

    /// The transaction under `recent_blockhash` with signatures that were made
    /// elsewhere, one for each key that has to sign and in the order of those keys;
    /// or whether there are too few or too many of them.
    pub fn signed_with(&self, recent_blockhash: &solana_sdk::hash::Hash, signatures: &Vec<Signature>) -> (signed:
        Result<Transaction, SigningError>)
        ensures
            match signed {
                Ok(made) => {
                    &&& signatures@.len() == self@.signer_keys.len()
                    &&& carried_signatures(made) == signature_bytes(signatures@)
                    &&& carried_message_data(made) == message_data_bytes(
                        self@.fee_payer,
                        self@.instructions,
                        *recent_blockhash,
                    )
                    &&& same_length(
                        carried_wire_bytes(made),
                        transaction_wire_bytes(self@.fee_payer, self@.instructions),
                    )
                },
                Err(reason) => reason == (if signatures@.len() < self@.signer_keys.len() {
                    SigningError::NotEnoughSigners
                } else {
                    SigningError::TooManySigners
                }) && signatures@.len() != self@.signer_keys.len(),
            },
    {
        if signatures.len() < self.signer_keys.len() {
            Err(SigningError::NotEnoughSigners)
        } else if signatures.len() > self.signer_keys.len() {
            Err(SigningError::TooManySigners)
        } else {
            Ok(self.with_signatures(recent_blockhash, signatures))
        }
    }

    /// What the SDK's signing makes of the transaction with the given key pairs
    /// under the given blockhash.
    pub(crate) fn try_sign(&self, signers: &Vec<Arc<Keypair>>, recent_blockhash: solana_sdk::hash::Hash) -> (signed:
        Result<Transaction, SignerError>)
        ensures
            self.wf(),
            signed == try_sign_outcome(
                self@.fee_payer,
                self@.instructions,
                signers@,
                recent_blockhash,
            ),
            signed is Ok <==> signers_match(self@.signer_keys, signers@),
            signed matches Ok(made) ==> signed_by_sdk(
                made,
                self@.fee_payer,
                self@.instructions,
                signers@,
                recent_blockhash,
            ),
    {
        proof {
            use_type_invariant(self);
        }
        sign_unsigned(&self.fee_payer, &self.instructions, signers, recent_blockhash)
    }
}

impl Clone for UnsignedTransaction {
    fn clone(&self) -> (copy: Self)
        ensures
            copy@ == self@,
    {
        proof {
            use_type_invariant(self);
        }
        let instructions = copy_instructions(&self.instructions);
        let signer_keys = copy_keys(&self.signer_keys);
        UnsignedTransaction { fee_payer: self.fee_payer, instructions, signer_keys }
    }
}

/// A copy of a list of keys.
pub(crate) fn copy_keys(keys: &Vec<Pubkey>) -> (copy: Vec<Pubkey>)
    ensures
        copy@ == keys@,
{
    let mut copy: Vec<Pubkey> = Vec::new();
    let mut i: usize = 0;
    while i < keys.len()
        invariant
            i <= keys.len(),
            copy@ == keys@.subrange(0, i as int),
        decreases keys.len() - i,
    {
        copy.push(keys[i]);
        assert(copy@ =~= keys@.subrange(0, i + 1));
        i += 1;
    }
    assert(keys@.subrange(0, i as int) =~= keys@);
    copy
}

} // verus!
