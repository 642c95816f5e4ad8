//! An unsigned transaction together with the key pairs that will sign it.

use vstd::prelude::*;
use vstd::string::StringExecFns;
use std::sync::Arc;
use solana_sdk::signature::Keypair;
use solana_sdk::transaction::{Transaction, VersionedTransaction};
use solana_sdk::signer::SignerError;
use crate::keypair::{keypair_pubkey, keypair_signature, share_keypair};
use crate::packing::description_texts;
use crate::pubkey::Pubkey;
use crate::signature_builder::{signers_for, SignatureBuilder};
use crate::text::{append_decimal, decimal};
use crate::transaction::{
    carried_message_data, carried_signatures, carried_wire_bytes, into_versioned,
    has_place, has_signer, message_data_bytes, placed_at, placed_signatures, same_length,
    signers_match, transaction_wire_bytes, try_sign_outcome,
    versioned_message_data, versioned_signatures, UnsignedTransaction,
};

verus! {

/// What the versioned signing reports for an outcome of the legacy signing: the
/// same error, or a versioned transaction with the same signatures and message.
pub open spec fn versioned_as(
    outcome: Result<Transaction, SignerError>,
    versioned: Result<VersionedTransaction, SignerError>,
) -> bool {
    match outcome {
        Ok(made) => versioned matches Ok(wrapped) && versioned_signatures(wrapped)
            == carried_signatures(made) && versioned_message_data(wrapped) == carried_message_data(
            made,
        ),
        Err(error) => versioned == Err::<VersionedTransaction, SignerError>(error),
    }
}

/// Puts the outcome of the legacy signing into the versioned envelope.
pub fn versioned_outcome(outcome: Result<Transaction, SignerError>) -> (versioned: Result<
    VersionedTransaction,
    SignerError,
>)
    ensures
        versioned_as(outcome, versioned),
{
    match outcome {
        Ok(made) => Ok(into_versioned(made)),
        Err(error) => Err(error),
    }
}

/// Something that can be signed under a recent blockhash.
pub trait SignedTransaction {
    /// What signing under `recent_blockhash` comes to.
    spec fn signing_outcome(&self, recent_blockhash: solana_sdk::hash::Hash) -> Result<
        Transaction,
        SignerError,
    >;

    /// The signed legacy transaction, or the signer's error.
    fn signed_transaction(&self, recent_blockhash: solana_sdk::hash::Hash) -> (signed: Result<
        Transaction,
        SignerError,
    >)
        ensures
            signed == self.signing_outcome(recent_blockhash),
    ;

    /// The signed transaction in the versioned envelope, or the signer's error.
    fn signed_versioned_transaction(&self, recent_blockhash: solana_sdk::hash::Hash) -> (signed:
        Result<VersionedTransaction, SignerError>)
        ensures
            versioned_as(self.signing_outcome(recent_blockhash), signed),
    ;
}

/// An unsigned transaction, the key pairs of its required signers in the order of
/// the message's account keys, and the description of each instruction.
#[derive(Debug)]
pub struct PreparedTransaction {
    pub transaction: UnsignedTransaction,
    pub signers: Vec<Arc<Keypair>>,
    pub instruction_descriptions: Vec<Option<String>>,
}

/// Whether two optional descriptions read the same.
spec fn same_text(a: Option<String>, b: Option<String>) -> bool {
    match (a, b) {
        (Some(x), Some(y)) => x@ == y@,
        (None, None) => true,
        _ => false,
    }
}

/// The line that stands for the description of instruction `index`.
pub open spec fn description_line(index: nat, description: Seq<char>) -> Seq<char> {
    "#"@ + decimal(index) + ": "@ + description
}

/// Whether a description is there and says something: a text of at least one
/// character.
pub open spec fn says_something(description: Option<Seq<char>>) -> bool {
    description matches Some(text) && text.len() > 0
}

/// The lines of those of the first `n` instructions whose description says
/// something.
pub open spec fn description_lines(descriptions: Seq<Option<Seq<char>>>, n: nat) -> Seq<Seq<char>>
    decreases n,
{
    if n == 0 {
        Seq::empty()
    } else if says_something(descriptions[n - 1]) {
        description_lines(descriptions, (n - 1) as nat).push(
            description_line((n - 1) as nat, descriptions[n - 1]->Some_0),
        )
    } else {
        description_lines(descriptions, (n - 1) as nat)
    }
}

/// There is no line exactly where none of the descriptions says something.
pub proof fn lemma_no_lines(descriptions: Seq<Option<Seq<char>>>, n: nat)
    requires
        n <= descriptions.len(),
    ensures
        description_lines(descriptions, n).len() == 0 <==> forall|i: int|
            0 <= i < n ==> !says_something(#[trigger] descriptions[i]),
    decreases n,
{
    if n > 0 {
        lemma_no_lines(descriptions, (n - 1) as nat);
        if !says_something(descriptions[n - 1]) {
            assert forall|i: int| 0 <= i < n && (forall|j: int|
                0 <= j < n - 1 ==> !says_something(#[trigger] descriptions[j]))
                implies !says_something(#[trigger] descriptions[i]) by {}
        }
    }
}

/// The lines with a line feed between each two.
pub open spec fn join_lines(lines: Seq<Seq<char>>) -> Seq<char>
    decreases lines.len(),
{
    if lines.len() == 0 {
        Seq::empty()
    } else if lines.len() == 1 {
        lines[0]
    } else {
        join_lines(lines.drop_last()) + "\n"@ + lines.last()
    }
}

impl PreparedTransaction {
    /// Whether there is one key pair for each key that has to sign, in the order
    /// of those keys.
    pub open spec fn ready(&self) -> bool {
        &&& self.signers@.len() == self.transaction@.signer_keys.len()
        &&& forall|i: int|
            0 <= i < self.signers@.len() ==> keypair_pubkey(*(#[trigger] self.signers@[i]))
                == self.transaction@.signer_keys[i]
    }

    /// Pairs `transaction` with the key pairs that `signature_builder` holds for
    /// its required signers; fails with the first required key that it does not
    /// hold.
    pub fn new(
        transaction: UnsignedTransaction,
        signature_builder: &SignatureBuilder,
        instruction_descriptions: Vec<Option<String>>,
    ) -> (prepared: Result<Self, Pubkey>)
        ensures
            match prepared {
                Ok(made) => {
                    &&& signers_for(signature_builder@, transaction@.signer_keys) == Ok::<
                        Seq<Arc<Keypair>>,
                        Pubkey,
                    >(made.signers@)
                    &&& made.transaction == transaction
                    &&& made.instruction_descriptions == instruction_descriptions
                    &&& made.ready()
                },
                Err(key) => signers_for(signature_builder@, transaction@.signer_keys) == Err::<
                    Seq<Arc<Keypair>>,
                    Pubkey,
                >(key),
            },
    {
        match signature_builder.signers_for_transaction(&transaction) {
            Ok(signers) => {
                let prepared = PreparedTransaction { transaction, signers, instruction_descriptions };
                assert(prepared.ready()) by {
                    assert forall|i: int| 0 <= i < prepared.signers@.len() implies keypair_pubkey(
                        *(#[trigger] prepared.signers@[i]),
                    ) == prepared.transaction@.signer_keys[i] by {
                        let key = prepared.transaction@.signer_keys[i];
                        assert(signature_builder@.dom().contains(key));
                        assert(prepared.signers@[i] == signature_builder@[key]);
                    }
                }
                Ok(prepared)
            },
            Err(key) => Err(key),
        }
    }

    /// Whether `signatures` are those of this transaction over `message` under
    /// `recent_blockhash`: the message is the one of the transaction under that
    /// blockhash, there is one signature for each key that has to sign, and the
    /// signature of each key pair stands at the place of its key. Where the key
    /// pairs are `ready`, that is one signature by each key pair, in their order.
    pub open spec fn signs(
        &self,
        recent_blockhash: solana_sdk::hash::Hash,
        message: Seq<u8>,
        signatures: Seq<Seq<u8>>,
    ) -> bool {
        &&& message == message_data_bytes(
            self.transaction@.fee_payer,
            self.transaction@.instructions,
            recent_blockhash,
        )
        &&& placed_signatures(self.transaction@.signer_keys, self.signers@, message, signatures)
        &&& self.ready() ==> signatures.len() == self.signers@.len() && forall|i: int|
            0 <= i < self.signers@.len() ==> (#[trigger] signatures[i]) == keypair_signature(
                *self.signers@[i],
                message,
            )
    }

    /// Whether `made` is as long on the wire as this transaction before signing,
    /// which is the length that a builder measures.
    pub open spec fn measured_as(&self, made: Transaction) -> bool {
        same_length(
            carried_wire_bytes(made),
            transaction_wire_bytes(self.transaction@.fee_payer, self.transaction@.instructions),
        )
    }

    /// Key pairs that are `ready` are the signers that the keys ask for.
    pub proof fn lemma_ready_matches(&self)
        requires
            self.ready(),
        ensures
            signers_match(self.transaction@.signer_keys, self.signers@),
    {
        let keys = self.transaction@.signer_keys;
        assert forall|i: int| 0 <= i < self.signers@.len() implies keys.contains(
            keypair_pubkey(*#[trigger] self.signers@[i]),
        ) by {
            assert(keys[i] == keypair_pubkey(*self.signers@[i]));
        }
        assert forall|place: int| 0 <= place < keys.len() implies has_signer(
            self.signers@,
            #[trigger] keys[place],
        ) by {
            assert(keypair_pubkey(*self.signers@[place]) == keys[place]);
        }
    }

    /// With key pairs that are `ready`, signatures at the places of their keys are
    /// signatures in the order of the key pairs.
    proof fn lemma_ready_places(&self, message: Seq<u8>, signatures: Seq<Seq<u8>>)
        requires
            self.transaction.wf(),
            self.ready(),
            placed_signatures(self.transaction@.signer_keys, self.signers@, message, signatures),
        ensures
            forall|i: int|
                0 <= i < self.signers@.len() ==> (#[trigger] signatures[i]) == keypair_signature(
                    *self.signers@[i],
                    message,
                ),
    {
        let keys = self.transaction@.signer_keys;
        assert forall|i: int| 0 <= i < self.signers@.len() implies (#[trigger] signatures[i])
            == keypair_signature(*self.signers@[i], message) by {
            assert(has_place(keys, self.signers@[i], message, signatures));
            let place = choose|place: int|
                placed_at(keys, self.signers@[i], message, signatures, place);
            assert(keys[i] == keypair_pubkey(*self.signers@[i]));
            assert(place == i);
        }
    }

    /// The descriptions that say something, each on a line of its own after `#`,
    /// the position of its instruction and a colon; nothing where no instruction
    /// has a description of at least one character.
    pub fn single_description(&self) -> (description: Option<String>)
        ensures
            ({
                let lines = description_lines(
                    description_texts(self.instruction_descriptions@),
                    self.instruction_descriptions@.len(),
                );
                match description {
                    Some(text) => lines.len() > 0 && text@ == join_lines(lines),
                    None => lines.len() == 0,
                }
            }),
            description is None <==> forall|i: int|
                0 <= i < self.instruction_descriptions@.len() ==> !says_something(
                    #[trigger] description_texts(self.instruction_descriptions@)[i],
                ),
    {
        proof {
            lemma_no_lines(
                description_texts(self.instruction_descriptions@),
                self.instruction_descriptions@.len(),
            );
        }
        let ghost views = description_texts(self.instruction_descriptions@);
        let mut text = String::new();
        let mut any = false;
        let mut i: usize = 0;
        while i < self.instruction_descriptions.len()
            invariant
                i <= self.instruction_descriptions.len(),
                views == description_texts(self.instruction_descriptions@),
                any == (description_lines(views, i as nat).len() > 0),
                text@ == join_lines(description_lines(views, i as nat)),
            decreases self.instruction_descriptions.len() - i,
        {
            let ghost before = description_lines(views, i as nat);
            match &self.instruction_descriptions[i] {
                Some(description) => {
                    assert(views[i as int] == Some(description@));
                    if !description.as_str().is_empty() {
                        if any {
                            text.append("\n");
                        }
                        text.append("#");
                        append_decimal(&mut text, i);
                        text.append(": ");
                        text.append(description.as_str());
                        proof {
                            let line = description_line(i as nat, description@);
                            assert(description_lines(views, (i + 1) as nat) == before.push(line));
                            assert(before.push(line).drop_last() =~= before);
                            if before.len() > 0 {
                                assert(text@ =~= join_lines(before) + "\n"@ + line);
                            } else {
                                assert(text@ =~= line);
                            }
                        }
                        any = true;
                    }
                },
                None => {
                    assert(views[i as int] is None);
                },
            }
            i += 1;
        }
        if any {
            Some(text)
        } else {
            None
        }
    }
}

impl SignedTransaction for PreparedTransaction {
    open spec fn signing_outcome(&self, recent_blockhash: solana_sdk::hash::Hash) -> Result<
        Transaction,
        SignerError,
    > {
        try_sign_outcome(
            self.transaction@.fee_payer,
            self.transaction@.instructions,
            self.signers@,
            recent_blockhash,
        )
    }

    fn signed_transaction(&self, recent_blockhash: solana_sdk::hash::Hash) -> (signed: Result<
        Transaction,
        SignerError,
    >)
        ensures
            signed is Ok <==> signers_match(self.transaction@.signer_keys, self.signers@),
            self.ready() ==> signed is Ok,
            signed matches Ok(made) ==> self.signs(
                recent_blockhash,
                carried_message_data(made),
                carried_signatures(made),
            ) && self.measured_as(made),
    {
        proof {
            if self.ready() {
                self.lemma_ready_matches();
            }
        }
        match self.transaction.try_sign(&self.signers, recent_blockhash) {
            Ok(made) => {
                proof {
                    if self.ready() {
                        self.lemma_ready_places(
                            carried_message_data(made),
                            carried_signatures(made),
                        );
                    }
                }
                Ok(made)
            },
            Err(error) => Err(error),
        }
    }

    fn signed_versioned_transaction(&self, recent_blockhash: solana_sdk::hash::Hash) -> (signed:
        Result<VersionedTransaction, SignerError>)
        ensures
            signed is Ok <==> signers_match(self.transaction@.signer_keys, self.signers@),
            self.ready() ==> signed is Ok,
            signed matches Ok(made) ==> self.signs(
                recent_blockhash,
                versioned_message_data(made),
                versioned_signatures(made),
            ),
    {
        versioned_outcome(self.signed_transaction(recent_blockhash))
    }
}

impl Clone for PreparedTransaction {
    fn clone(&self) -> (copy: Self)
        ensures
            copy.transaction@ == self.transaction@,
            copy.signers@ == self.signers@,
            description_texts(copy.instruction_descriptions@) == description_texts(
                self.instruction_descriptions@,
            ),
    {
        let mut signers: Vec<Arc<Keypair>> = Vec::new();
        let mut i: usize = 0;
        while i < self.signers.len()
            invariant
                i <= self.signers.len(),
                signers@ == self.signers@.subrange(0, i as int),
            decreases self.signers.len() - i,
        {
            signers.push(share_keypair(&self.signers[i]));
            assert(signers@ =~= self.signers@.subrange(0, i + 1));
            i += 1;
        }
        assert(self.signers@.subrange(0, i as int) =~= self.signers@);
        let mut descriptions: Vec<Option<String>> = Vec::new();
        let mut j: usize = 0;
        while j < self.instruction_descriptions.len()
            invariant
                j <= self.instruction_descriptions.len(),
                descriptions@.len() == j,
                forall|k: int|
                    0 <= k < j ==> same_text(
                        #[trigger] descriptions@[k],
                        self.instruction_descriptions@[k],
                    ),
            decreases self.instruction_descriptions.len() - j,
        {
            let copy = match &self.instruction_descriptions[j] {
                Some(text) => Some(text.clone()),
                None => None,
            };
            descriptions.push(copy);
            j += 1;
        }
        assert(description_texts(descriptions@) =~= description_texts(self.instruction_descriptions@));
        PreparedTransaction {
            transaction: self.transaction.clone(),
            signers,
            instruction_descriptions: descriptions,
        }
    }
}

} // verus!
