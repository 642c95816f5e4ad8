//! The transaction builder: instructions are admitted into packs under a size
//! budget, and the packs are emitted as prepared transactions.

use vstd::prelude::*;
use vstd::string::StringExecFns;
use std::sync::Arc;
use solana_sdk::signature::Keypair;
use crate::instruction::{instruction_views, Instruction, InstructionView};
use crate::keypair::keypair_pubkey;
use crate::message::{declares_signer, encodable, is_encodable, lemma_empty_encodable};
use crate::packing::{
    append_descriptions, append_instructions, combined_groups, combined_take, concat_packs, copy_pack,
    description_texts, fits, fits_budget, greedy_count, within_budget,
    one_by_one_groups, pack_descriptions, pack_fits, pack_instructions, pack_view, packs_view,
    DescribedInstruction, DescribedInstructionView, PackView,
};
use crate::prepared_transaction::PreparedTransaction;
use crate::pubkey::{base58_text, Pubkey};
use crate::signature_builder::{holds_all, signers_for, SignatureBuilder};
use crate::transaction::UnsignedTransaction;

verus! {

/// `PACKET_DATA_SIZE` of the SDK: the most bytes of one transaction on the wire.
#[verifier::external_body]
fn packet_data_size() -> (size: usize)
    ensures
        size == 1232,
{
    solana_sdk::packet::PACKET_DATA_SIZE
}

/// Why an instruction was not admitted.
#[derive(Debug, Clone, Copy, PartialEq, Eq)]
pub enum TransactionBuildError {
    /// An account of the instruction has to sign, and no key pair is held for it.
    UnknownSigner(Pubkey),
    /// With the instruction, the wire format could not hold the transaction of the
    /// current pack, or the transaction would exceed the size budget.
    TooBigTransaction,
}

impl TransactionBuildError {
    /// The message of the error.
    pub open spec fn message(self) -> Seq<char> {
        match self {
            TransactionBuildError::UnknownSigner(key) => "Unknown signer $"@ + base58_text(key.bytes@),
            TransactionBuildError::TooBigTransaction => "Too big transaction"@,
        }
    }

    /// Writes the message of the error.
    pub fn to_string(&self) -> (text: String)
        ensures
            text@ == self.message(),
    {
        match self {
            TransactionBuildError::UnknownSigner(key) => {
                let mut text = String::from_str("Unknown signer $");
                let key_text = key.to_string();
                text.append(key_text.as_str());
                text
            },
            TransactionBuildError::TooBigTransaction => String::from_str("Too big transaction"),
        }
    }
}

/// What a transaction builder holds.
pub struct BuilderView {
    pub fee_payer: Pubkey,
    pub max_transaction_size: usize,
    pub signers: Map<Pubkey, Arc<Keypair>>,
    pub packs: Seq<PackView>,
    pub current: PackView,
}

/// Whether the account at `position` has to sign and no key pair is held for it.
pub open spec fn unknown_signer_at(held: Set<Pubkey>, instruction: InstructionView, position: int) -> bool {
    &&& 0 <= position < instruction.accounts.len()
    &&& instruction.accounts[position].is_signer
    &&& !held.contains(instruction.accounts[position].pubkey)
}

/// Whether a key pair is held for every account of `instruction` that has to sign.
pub open spec fn signers_known(held: Set<Pubkey>, instruction: InstructionView) -> bool {
    forall|position: int| !unknown_signer_at(held, instruction, position)
}

/// The position of the first account that has to sign without a held key pair.
pub open spec fn first_unknown_signer(held: Set<Pubkey>, instruction: InstructionView) -> int {
    choose|position: int|
        unknown_signer_at(held, instruction, position) && forall|earlier: int|
            earlier < position ==> !unknown_signer_at(held, instruction, earlier)
}

/// Before an account that has to sign without a held key pair, there is a first
/// such account.
proof fn lemma_unknown_signer_has_first(held: Set<Pubkey>, instruction: InstructionView, at: int)
    requires
        unknown_signer_at(held, instruction, at),
    ensures
        exists|position: int|
            unknown_signer_at(held, instruction, position) && forall|earlier: int|
                earlier < position ==> !unknown_signer_at(held, instruction, earlier),
    decreases at,
{
    if exists|earlier: int| earlier < at && unknown_signer_at(held, instruction, earlier) {
        let earlier = choose|earlier: int|
            earlier < at && unknown_signer_at(held, instruction, earlier);
        lemma_unknown_signer_has_first(held, instruction, earlier);
    }
}

/// Where the signers of an instruction are not all known, `first_unknown_signer`
/// is the position of the first account that has to sign without a held key pair.
pub proof fn lemma_first_unknown_signer(held: Set<Pubkey>, instruction: InstructionView)
    requires
        !signers_known(held, instruction),
    ensures
        unknown_signer_at(held, instruction, first_unknown_signer(held, instruction)),
        forall|earlier: int|
            earlier < first_unknown_signer(held, instruction) ==> !unknown_signer_at(
                held,
                instruction,
                earlier,
            ),
{
    let at = choose|position: int| unknown_signer_at(held, instruction, position);
    lemma_unknown_signer_has_first(held, instruction, at);
}

/// Whether `pack` may stand in a builder: it fits, and the signers of all its
/// instructions are known.
pub open spec fn pack_valid(fee_payer: Pubkey, max_size: usize, held: Set<Pubkey>, pack: PackView) -> bool {
    &&& pack_fits(fee_payer, pack, max_size)
    &&& forall|i: int| 0 <= i < pack.len() ==> signers_known(held, (#[trigger] pack[i]).instruction)
}

impl BuilderView {
    /// What holds of every builder: the fee payer can sign, and every pack is valid.
    pub open spec fn valid(self) -> bool {
        &&& self.signers.dom().contains(self.fee_payer)
        &&& forall|i: int|
            0 <= i < self.packs.len() ==> pack_valid(
                self.fee_payer,
                self.max_transaction_size,
                self.signers.dom(),
                #[trigger] self.packs[i],
            )
        &&& pack_valid(
            self.fee_payer,
            self.max_transaction_size,
            self.signers.dom(),
            self.current,
        )
    }

    /// Whether nothing is waiting to be emitted.
    pub open spec fn is_empty(self) -> bool {
        self.packs.len() == 0 && self.current.len() == 0
    }

    /// The builder after the current pack, unless empty, has joined the finished ones.
    pub open spec fn finished(self) -> BuilderView {
        if self.current.len() == 0 {
            self
        } else {
            BuilderView { packs: self.packs.push(self.current), current: Seq::empty(), ..self }
        }
    }

    /// The outcome of offering one instruction: the builder with the instruction at
    /// the end of its current pack, or the reason for which it is refused. An
    /// instruction is refused as too big where the wire format cannot hold the
    /// transaction of the pack with it, and where a budget is set and that
    /// transaction exceeds it. Without a budget no size is measured.
    pub open spec fn admission(self, entry: DescribedInstructionView) -> Result<
        BuilderView,
        TransactionBuildError,
    > {
        if !signers_known(self.signers.dom(), entry.instruction) {
            Err(
                TransactionBuildError::UnknownSigner(
                    entry.instruction.accounts[first_unknown_signer(
                        self.signers.dom(),
                        entry.instruction,
                    )].pubkey,
                ),
            )
        } else if !encodable(self.fee_payer, pack_instructions(self.current.push(entry))) {
            Err(TransactionBuildError::TooBigTransaction)
        } else if !within_budget(
            self.fee_payer,
            pack_instructions(self.current.push(entry)),
            self.max_transaction_size,
        ) {
            Err(TransactionBuildError::TooBigTransaction)
        } else {
            Ok(BuilderView { current: self.current.push(entry), ..self })
        }
    }

    /// The outcome of offering the instructions from position `from` on, one after
    /// the other, up to the first that is refused: the builder with those admitted
    /// before it, and the reason of the refusal if there was one.
    pub open spec fn admission_of_all(self, entries: Seq<DescribedInstructionView>, from: nat) -> (
        BuilderView,
        Option<TransactionBuildError>,
    )
        decreases entries.len() - from,
    {
        if from >= entries.len() {
            (self, None)
        } else {
            match self.admission(entries[from as int]) {
                Ok(admitted) => admitted.admission_of_all(entries, from + 1),
                Err(reason) => (self, Some(reason)),
            }
        }
    }

    /// Every instruction that waits in the builder, the finished packs first.
    pub open spec fn all_instructions(self) -> Seq<InstructionView> {
        pack_instructions(concat_packs(self.packs, self.packs.len()) + self.current)
    }
}

/// Accumulates instructions into packs and emits them as prepared transactions.
#[derive(Debug)]
pub struct TransactionBuilder {
    fee_payer: Pubkey,
    signature_builder: SignatureBuilder,
    instruction_packs: Vec<Vec<DescribedInstruction>>,
    current_instruction_pack: Vec<DescribedInstruction>,
    max_transaction_size: usize,
}

impl View for TransactionBuilder {
    type V = BuilderView;

    closed spec fn view(&self) -> BuilderView {
        BuilderView {
            fee_payer: self.fee_payer,
            max_transaction_size: self.max_transaction_size,
            signers: self.signature_builder@,
            packs: packs_view(self.instruction_packs@),
            current: pack_view(self.current_instruction_pack@),
        }
    }
}

impl Clone for TransactionBuilder {
    fn clone(&self) -> (copy: Self)
        ensures
            copy@ == self@,
    {
        proof {
            use_type_invariant(self);
        }
        let mut packs: Vec<Vec<DescribedInstruction>> = Vec::new();
        let mut i: usize = 0;
        while i < self.instruction_packs.len()
            invariant
                i <= self.instruction_packs.len(),
                packs@.len() == i,
                forall|j: int|
                    0 <= j < i ==> pack_view((#[trigger] packs@[j])@) == pack_view(
                        self.instruction_packs@[j]@,
                    ),
            decreases self.instruction_packs.len() - i,
        {
            packs.push(copy_pack(&self.instruction_packs[i]));
            i += 1;
        }
        let current = copy_pack(&self.current_instruction_pack);
        let signature_builder = self.signature_builder.clone();
        proof {
            assert(packs_view(packs@) =~= packs_view(self.instruction_packs@));
        }
        TransactionBuilder {
            fee_payer: self.fee_payer,
            signature_builder,
            instruction_packs: packs,
            current_instruction_pack: current,
            max_transaction_size: self.max_transaction_size,
        }
    }
}

/// With more signers known, a valid pack stays valid.
proof fn lemma_pack_valid_grows(
    fee_payer: Pubkey,
    max_size: usize,
    before: Set<Pubkey>,
    after: Set<Pubkey>,
    pack: PackView,
)
    requires
        pack_valid(fee_payer, max_size, before, pack),
        before.subset_of(after),
    ensures
        pack_valid(fee_payer, max_size, after, pack),
{
    assert forall|i: int| 0 <= i < pack.len() implies signers_known(
        after,
        (#[trigger] pack[i]).instruction,
    ) by {
        assert(signers_known(before, pack[i].instruction));
        assert forall|position: int| !unknown_signer_at(after, pack[i].instruction, position) by {
            assert(!unknown_signer_at(before, pack[i].instruction, position));
        }
    }
}

/// A builder stays valid when its registry comes to hold more signers.
proof fn lemma_valid_with_more_signers(before: BuilderView, registry: Map<Pubkey, Arc<Keypair>>)
    requires
        before.valid(),
        before.signers.dom().subset_of(registry.dom()),
    ensures
        (BuilderView { signers: registry, ..before }).valid(),
{
    assert forall|i: int| 0 <= i < before.packs.len() implies pack_valid(
        before.fee_payer,
        before.max_transaction_size,
        registry.dom(),
        #[trigger] before.packs[i],
    ) by {
        lemma_pack_valid_grows(
            before.fee_payer,
            before.max_transaction_size,
            before.signers.dom(),
            registry.dom(),
            before.packs[i],
        );
    }
    lemma_pack_valid_grows(
        before.fee_payer,
        before.max_transaction_size,
        before.signers.dom(),
        registry.dom(),
        before.current,
    );
}

/// An empty pack holds no instructions, and the transaction of none can be
/// encoded; a builder without packs holds none.
proof fn lemma_empty_pack(fee_payer: Pubkey)
    ensures
        pack_view(Seq::<DescribedInstruction>::empty()) == Seq::<DescribedInstructionView>::empty(),
        packs_view(Seq::<Vec<DescribedInstruction>>::empty()) == Seq::<PackView>::empty(),
        pack_instructions(Seq::<DescribedInstructionView>::empty()) == Seq::<
            InstructionView,
        >::empty(),
        encodable(fee_payer, pack_instructions(Seq::<DescribedInstructionView>::empty())),
{
    lemma_empty_encodable(fee_payer);
    assert(pack_instructions(Seq::<DescribedInstructionView>::empty()) =~= Seq::<
        InstructionView,
    >::empty());
    assert(pack_view(Seq::<DescribedInstruction>::empty()) =~= Seq::<
        DescribedInstructionView,
    >::empty());
    assert(packs_view(Seq::<Vec<DescribedInstruction>>::empty()) =~= Seq::<PackView>::empty());
}

impl TransactionBuilder {
    /// Every builder is valid.
    #[verifier::type_invariant]
    pub open spec fn wf(&self) -> bool {
        self@.valid()
    }

    /// A builder without instructions, whose transactions `fee_payer` pays and
    /// signs and which hold at most `max_transaction_size` bytes each; 0 sets no
    /// limit.
    pub fn new(fee_payer: Arc<Keypair>, max_transaction_size: usize) -> (builder: Self)
        ensures
            builder@.fee_payer == keypair_pubkey(*fee_payer),
            builder@.max_transaction_size == max_transaction_size,
            builder@.signers == Map::<Pubkey, Arc<Keypair>>::empty().insert(
                keypair_pubkey(*fee_payer),
                fee_payer,
            ),
            builder@.packs == Seq::<PackView>::empty(),
            builder@.current == Seq::<DescribedInstructionView>::empty(),
            builder.wf(),
    {
        let mut signature_builder = SignatureBuilder::new();
        let key = signature_builder.add_signer(fee_payer);
        proof {
            lemma_empty_pack(key);
        }
        let builder = TransactionBuilder {
            fee_payer: key,
            signature_builder,
            instruction_packs: Vec::new(),
            current_instruction_pack: Vec::new(),
            max_transaction_size,
        };
        assert(builder@.packs =~= Seq::<PackView>::empty());
        assert(builder@.current =~= Seq::<DescribedInstructionView>::empty());
        builder
    }

    /// A builder whose transactions fit one packet.
    pub fn limited(fee_payer: Arc<Keypair>) -> (builder: Self)
        ensures
            builder@.fee_payer == keypair_pubkey(*fee_payer),
            builder@.max_transaction_size == 1232,
            builder@.signers == Map::<Pubkey, Arc<Keypair>>::empty().insert(
                keypair_pubkey(*fee_payer),
                fee_payer,
            ),
            builder@.packs == Seq::<PackView>::empty(),
            builder@.current == Seq::<DescribedInstructionView>::empty(),
            builder.wf(),
    {
        Self::new(fee_payer, packet_data_size())
    }

    /// A builder without a limit on the size of its transactions.
    pub fn unlimited(fee_payer: Arc<Keypair>) -> (builder: Self)
        ensures
            builder@.fee_payer == keypair_pubkey(*fee_payer),
            builder@.max_transaction_size == 0,
            builder@.signers == Map::<Pubkey, Arc<Keypair>>::empty().insert(
                keypair_pubkey(*fee_payer),
                fee_payer,
            ),
            builder@.packs == Seq::<PackView>::empty(),
            builder@.current == Seq::<DescribedInstructionView>::empty(),
            builder.wf(),
    {
        Self::new(fee_payer, 0)
    }

    pub fn fee_payer(&self) -> (fee_payer: Pubkey)
        ensures
            fee_payer == self@.fee_payer,
    {
        self.fee_payer
    }

    /// The size budget of one transaction in bytes; 0 stands for no limit.
    pub fn max_transaction_size(&self) -> (max_transaction_size: usize)
        ensures
            max_transaction_size == self@.max_transaction_size,
    {
        self.max_transaction_size
    }

    /// The key pair held for `key`.
    pub fn get_signer(&self, key: &Pubkey) -> (signer: Option<Arc<Keypair>>)
        ensures
            signer == (if self@.signers.dom().contains(*key) {
                Some(self@.signers[*key])
            } else {
                None
            }),
    {
        self.signature_builder.get_signer(key)
    }

    /// The key pair of the fee payer.
    pub fn fee_payer_signer(&self) -> (signer: Arc<Keypair>)
        ensures
            self@.signers.dom().contains(self@.fee_payer),
            signer == self@.signers[self@.fee_payer],
    {
        proof {
            use_type_invariant(self);
        }
        match self.signature_builder.get_signer(&self.fee_payer) {
            Some(signer) => signer,
            None => vstd::pervasive::unreached(),
        }
    }

    /// The registry of the key pairs that may sign.
    pub fn signature_builder(&self) -> (registry: &SignatureBuilder)
        ensures
            registry@ == self@.signers,
    {
        &self.signature_builder
    }

    /// Files `signer` under its public key, in place of any key pair that was
    /// filed there, and returns that key.
    pub fn add_signer(&mut self, signer: Arc<Keypair>) -> (key: Pubkey)
        ensures
            key == keypair_pubkey(*signer),
            final(self)@ == (BuilderView {
                signers: old(self)@.signers.insert(key, signer),
                ..old(self)@
            }),
            final(self).wf(),
    {
        proof {
            use_type_invariant(&*self);
        }
        let mut registry = self.signature_builder.clone();
        let key = registry.add_signer(signer);
        proof {
            lemma_valid_with_more_signers(self@, registry@);
        }
        self.signature_builder = registry;
        key
    }

    /// Generates a key pair, files it, and returns its public key.
    pub fn generate_signer(&mut self) -> (key: Pubkey)
        ensures
            final(self)@.signers.dom() == old(self)@.signers.dom().insert(key),
            keypair_pubkey(*final(self)@.signers[key]) == key,
            forall|other: Pubkey|
                other != key && old(self)@.signers.dom().contains(other) ==> final(self)@.signers[other] == old(self)@.signers[other],
            final(self)@.fee_payer == old(self)@.fee_payer,
            final(self)@.max_transaction_size == old(self)@.max_transaction_size,
            final(self)@.packs == old(self)@.packs,
            final(self)@.current == old(self)@.current,
            final(self).wf(),
    {
        proof {
            use_type_invariant(&*self);
        }
        let mut registry = self.signature_builder.clone();
        let key = registry.new_signer();
        proof {
            lemma_valid_with_more_signers(self@, registry@);
        }
        self.signature_builder = registry;
        key
    }

    /// Files `signer` under its public key unless a key pair is filed there.
    pub fn add_signer_checked(&mut self, signer: &Arc<Keypair>)
        ensures
            final(self)@ == (BuilderView {
                signers: if old(self)@.signers.dom().contains(keypair_pubkey(**signer)) {
                    old(self)@.signers
                } else {
                    old(self)@.signers.insert(keypair_pubkey(**signer), *signer)
                },
                ..old(self)@
            }),
            final(self).wf(),
    {
        proof {
            use_type_invariant(&*self);
        }
        let key = crate::keypair::pubkey_of(signer);
        if !self.signature_builder.contains_key(&key) {
            self.add_signer(crate::keypair::share_keypair(signer));
        }
    }

    /// Whether a key pair is held for every account of `instruction` that has to
    /// sign; if not, the error names the first such account without one.
    pub fn check_signers(&self, instruction: &Instruction) -> (checked: Result<(), TransactionBuildError>)
        ensures
            match checked {
                Ok(_) => signers_known(self@.signers.dom(), instruction@),
                Err(reason) => !signers_known(self@.signers.dom(), instruction@) && reason
                    == TransactionBuildError::UnknownSigner(
                    instruction@.accounts[first_unknown_signer(
                        self@.signers.dom(),
                        instruction@,
                    )].pubkey,
                ),
            },
    {
        let mut i: usize = 0;
        while i < instruction.accounts.len()
            invariant
                i <= instruction.accounts.len(),
                forall|earlier: int|
                    earlier < i ==> !unknown_signer_at(self@.signers.dom(), instruction@, earlier),
            decreases instruction.accounts.len() - i,
        {
            let account = &instruction.accounts[i];
            if account.is_signer && !self.signature_builder.contains_key(&account.pubkey) {
                proof {
                    let held = self@.signers.dom();
                    assert(unknown_signer_at(held, instruction@, i as int));
                    lemma_first_unknown_signer(held, instruction@);
                    assert(first_unknown_signer(held, instruction@) == i);
                }
                return Err(TransactionBuildError::UnknownSigner(account.pubkey));
            }
            i += 1;
        }
        Ok(())
    }

    /// Closes the current pack: it joins the finished packs, empty or not, and a
    /// new empty pack becomes current.
    pub fn finish_instruction_pack(&mut self)
        ensures
            final(self)@ == (BuilderView {
                packs: old(self)@.packs.push(old(self)@.current),
                current: Seq::empty(),
                ..old(self)@
            }),
            final(self).wf(),
    {
        proof {
            use_type_invariant(&*self);
            lemma_empty_pack(self.fee_payer);
        }
        let mut current: Vec<DescribedInstruction> = Vec::new();
        std::mem::swap(&mut current, &mut self.current_instruction_pack);
        let mut packs: Vec<Vec<DescribedInstruction>> = Vec::new();
        proof {
            assert(packs_view(packs@) =~= Seq::<PackView>::empty());
        }
        std::mem::swap(&mut packs, &mut self.instruction_packs);
        let ghost before = packs_view(packs@);
        packs.push(current);
        proof {
            assert(packs_view(packs@) =~= before.push(pack_view(current@)));
        }
        self.instruction_packs = packs;
    }

    /// Drops the instructions of the current pack.
    pub fn abort_instruction_pack(&mut self)
        ensures
            final(self)@ == (BuilderView { current: Seq::empty(), ..old(self)@ }),
            final(self).wf(),
    {
        proof {
            use_type_invariant(&*self);
            lemma_empty_pack(self.fee_payer);
        }
        self.current_instruction_pack = Vec::new();
    }

    /// Whether nothing is waiting to be emitted.
    pub fn is_empty(&self) -> (empty: bool)
        ensures
            empty == self@.is_empty(),
            self.wf(),
    {
        proof {
            use_type_invariant(self);
        }
        self.is_current_pack_empty() && self.instruction_packs.is_empty()
    }

    fn is_current_pack_empty(&self) -> (empty: bool)
        ensures
            empty == (self@.current.len() == 0),
    {
        self.current_instruction_pack.is_empty()
    }

    /// Offers one instruction without a description to the current pack.
    pub fn add_instruction(&mut self, instruction: Instruction) -> (added: Result<
        (),
        TransactionBuildError,
    >)
        ensures
            match old(self)@.admission(
                (DescribedInstructionView { instruction: instruction@, description: None }),
            ) {
                Ok(admitted) => added is Ok && final(self)@ == admitted,
                Err(reason) => added == Err::<(), TransactionBuildError>(reason) && final(self)@
                    == old(self)@,
            },
            final(self).wf(),
    {
        self.add_instruction_internal(instruction, None)
    }

    /// Offers one instruction with its description to the current pack.
    pub fn add_instruction_with_description(&mut self, instruction: Instruction, description: String) -> (added:
        Result<(), TransactionBuildError>)
        ensures
            match old(self)@.admission(
                (DescribedInstructionView {
                    instruction: instruction@,
                    description: Some(description@),
                }),
            ) {
                Ok(admitted) => added is Ok && final(self)@ == admitted,
                Err(reason) => added == Err::<(), TransactionBuildError>(reason) && final(self)@
                    == old(self)@,
            },
            final(self).wf(),
    {
        self.add_instruction_internal(instruction, Some(description))
    }

    fn add_instruction_internal(&mut self, instruction: Instruction, description: Option<String>) -> (added:
        Result<(), TransactionBuildError>)
        ensures
            match old(self)@.admission(
                (DescribedInstruction { instruction, description })@,
            ) {
                Ok(admitted) => added is Ok && final(self)@ == admitted,
                Err(reason) => added == Err::<(), TransactionBuildError>(reason) && final(self)@
                    == old(self)@,
            },
            final(self).wf(),
    {
        proof {
            use_type_invariant(&*self);
            lemma_empty_pack(self.fee_payer);
        }
        match self.check_signers(&instruction) {
            Err(reason) => {
                return Err(reason);
            },
            Ok(_) => {},
        }
        let ghost before = self@;
        let entry = DescribedInstruction { instruction, description };
        let mut current: Vec<DescribedInstruction> = Vec::new();
        std::mem::swap(&mut current, &mut self.current_instruction_pack);
        let ghost kept = current@;
        current.push(entry);
        proof {
            assert(pack_view(current@) =~= before.current.push(entry@));
        }
        let mut candidate: Vec<Instruction> = Vec::new();
        append_instructions(&mut candidate, &current);
        proof {
            assert(instruction_views(candidate@) =~= pack_instructions(pack_view(current@)));
        }
        if !fits_budget(&self.fee_payer, &candidate, self.max_transaction_size) {
            current.pop();
            proof {
                assert(current@ =~= kept);
            }
            self.current_instruction_pack = current;
            return Err(TransactionBuildError::TooBigTransaction);
        }
        proof {
            let admitted = before.current.push(entry@);
            assert forall|i: int| 0 <= i < admitted.len() implies signers_known(
                before.signers.dom(),
                (#[trigger] admitted[i]).instruction,
            ) by {
                if i < before.current.len() {
                    assert(admitted[i] == before.current[i]);
                }
            }
        }
        self.current_instruction_pack = current;
        Ok(())
    }

    /// Offers the entries from the first on, up to the first that is refused.
    fn admit_all(&mut self, entries: &Vec<DescribedInstruction>) -> (added: Result<
        (),
        TransactionBuildError,
    >)
        ensures
            final(self)@ == old(self)@.admission_of_all(pack_view(entries@), 0).0,
            match old(self)@.admission_of_all(pack_view(entries@), 0).1 {
                None => added is Ok,
                Some(reason) => added == Err::<(), TransactionBuildError>(reason),
            },
            final(self).wf(),
    {
        let ghost offered = pack_view(entries@);
        let mut i: usize = 0;
        proof {
            use_type_invariant(&*self);
        }
        while i < entries.len()
            invariant
                i <= entries.len(),
                offered == pack_view(entries@),
                self.wf(),
                self@.admission_of_all(offered, i as nat) == old(self)@.admission_of_all(offered, 0),
            decreases entries.len() - i,
        {
            let description = match &entries[i].description {
                Some(text) => Some(text.clone()),
                None => None,
            };
            match self.add_instruction_internal(entries[i].instruction.clone(), description) {
                Ok(_) => {},
                Err(reason) => {
                    return Err(reason);
                },
            }
            i += 1;
        }
        Ok(())
    }

    /// Offers the instructions in order, without descriptions, up to the first
    /// that is refused; those before it stay admitted.
    pub fn add_instructions(&mut self, instructions: Vec<Instruction>) -> (added: Result<
        (),
        TransactionBuildError,
    >)
        ensures
            final(self)@ == old(self)@.admission_of_all(undescribed(instruction_views(instructions@)), 0).0,
            match old(self)@.admission_of_all(undescribed(instruction_views(instructions@)), 0).1 {
                None => added is Ok,
                Some(reason) => added == Err::<(), TransactionBuildError>(reason),
            },
            final(self).wf(),
    {
        let mut entries: Vec<DescribedInstruction> = Vec::new();
        let mut i: usize = 0;
        while i < instructions.len()
            invariant
                i <= instructions.len(),
                entries@.len() == i,
                forall|j: int|
                    0 <= j < i ==> (#[trigger] entries@[j])@ == (DescribedInstructionView {
                        instruction: instructions@[j]@,
                        description: None,
                    }),
            decreases instructions.len() - i,
        {
            entries.push(DescribedInstruction { instruction: instructions[i].clone(), description: None });
            i += 1;
        }
        assert(pack_view(entries@) =~= undescribed(instruction_views(instructions@)));
        self.admit_all(&entries)
    }

    /// Offers the instructions in order, each with its description, up to the
    /// first that is refused; those before it stay admitted.
    pub fn add_instructions_with_description(
        &mut self,
        instructions_with_description: Vec<(Instruction, String)>,
    ) -> (added: Result<(), TransactionBuildError>)
        ensures
            final(self)@ == old(self)@.admission_of_all(described(instructions_with_description@), 0).0,
            match old(self)@.admission_of_all(described(instructions_with_description@), 0).1 {
                None => added is Ok,
                Some(reason) => added == Err::<(), TransactionBuildError>(reason),
            },
            final(self).wf(),
    {
        let mut entries: Vec<DescribedInstruction> = Vec::new();
        let mut i: usize = 0;
        while i < instructions_with_description.len()
            invariant
                i <= instructions_with_description.len(),
                entries@.len() == i,
                forall|j: int|
                    0 <= j < i ==> (#[trigger] entries@[j])@ == (DescribedInstructionView {
                        instruction: instructions_with_description@[j].0@,
                        description: Some(instructions_with_description@[j].1@),
                    }),
            decreases instructions_with_description.len() - i,
        {
            entries.push(
                DescribedInstruction {
                    instruction: instructions_with_description[i].0.clone(),
                    description: Some(instructions_with_description[i].1.clone()),
                },
            );
            i += 1;
        }
        assert(pack_view(entries@) =~= described(instructions_with_description@));
        self.admit_all(&entries)
    }

    /// Pairs the instructions of `contents` with the key pairs of their signers.
    fn prepare(
        &self,
        instructions: Vec<Instruction>,
        descriptions: Vec<Option<String>>,
        Ghost(contents): Ghost<PackView>,
    ) -> (prepared: PreparedTransaction)
        requires
            instruction_views(instructions@) == pack_instructions(contents),
            description_texts(descriptions@) == pack_descriptions(contents),
            pack_valid(
                self@.fee_payer,
                self@.max_transaction_size,
                self@.signers.dom(),
                contents,
            ),
        ensures
            self@.emits(prepared, contents),
    {
        proof {
            use_type_invariant(self);
        }
        match UnsignedTransaction::new_with_payer(instructions, self.fee_payer) {
            Some(transaction) => {
                proof {
                    let keys = transaction@.signer_keys;
                    let held = self@.signers.dom();
                    assert forall|i: int| 0 <= i < keys.len() implies held.contains(
                        #[trigger] keys[i],
                    ) by {
                        if keys[i] != self@.fee_payer {
                            assert(declares_signer(transaction@.instructions, keys[i]));
                            let (a, b) = choose|a: int, b: int|
                                0 <= a < transaction@.instructions.len() && 0 <= b
                                    < transaction@.instructions[a].accounts.len()
                                    && (#[trigger] transaction@.instructions[a].accounts[b]).is_signer
                                    && transaction@.instructions[a].accounts[b].pubkey == keys[i];
                            assert(signers_known(held, contents[a].instruction));
                            assert(!unknown_signer_at(held, contents[a].instruction, b));
                        }
                    }
                    assert(holds_all(self@.signers, keys, keys.len() as int));
                }
                match PreparedTransaction::new(transaction, &self.signature_builder, descriptions) {
                    Ok(prepared) => prepared,
                    Err(_) => vstd::pervasive::unreached(),
                }
            },
            None => vstd::pervasive::unreached(),
        }
    }

    /// The next transaction, made of the oldest pack alone; nothing once no pack
    /// is left. The current pack, unless empty, is finished first.
    pub fn build_next(&mut self) -> (prepared: Option<PreparedTransaction>)
        ensures
            match prepared {
                Some(made) => {
                    &&& old(self)@.finished().packs.len() > 0
                    &&& old(self)@.finished().emits(made, old(self)@.finished().packs[0])
                    &&& final(self)@ == (BuilderView {
                        packs: old(self)@.finished().packs.skip(1),
                        ..old(self)@.finished()
                    })
                },
                None => old(self)@.is_empty() && final(self)@ == old(self)@,
            },
            final(self).wf(),
    {
        proof {
            use_type_invariant(&*self);
        }
        if !self.is_current_pack_empty() {
            self.finish_instruction_pack();
        }
        proof {
            use_type_invariant(&*self);
        }
        let ghost before = self@;
        assert(before == old(self)@.finished());
        if self.instruction_packs.is_empty() {
            return None;
        }
        let mut packs: Vec<Vec<DescribedInstruction>> = Vec::new();
        proof {
            assert(packs_view(packs@) =~= Seq::<PackView>::empty());
        }
        std::mem::swap(&mut packs, &mut self.instruction_packs);
        let pack = packs.remove(0);
        proof {
            assert(packs_view(packs@) =~= before.packs.skip(1));
            assert(pack_view(pack@) == before.packs[0]);
            assert forall|i: int| 0 <= i < before.packs.skip(1).len() implies pack_valid(
                before.fee_payer,
                before.max_transaction_size,
                before.signers.dom(),
                #[trigger] before.packs.skip(1)[i],
            ) by {
                assert(before.packs.skip(1)[i] == before.packs[i + 1]);
            }
        }
        self.instruction_packs = packs;
        let mut instructions: Vec<Instruction> = Vec::new();
        append_instructions(&mut instructions, &pack);
        let mut descriptions: Vec<Option<String>> = Vec::new();
        append_descriptions(&mut descriptions, &pack);
        proof {
            assert(instruction_views(instructions@) =~= pack_instructions(before.packs[0]));
            assert(description_texts(descriptions@) =~= pack_descriptions(before.packs[0]));
        }
        let prepared = self.prepare(instructions, descriptions, Ghost(before.packs[0]));
        Some(prepared)
    }

    /// The one transaction of a builder that holds exactly one pack.
    pub fn build_one(&mut self) -> (prepared: PreparedTransaction)
        requires
            old(self)@.finished().packs.len() == 1,
        ensures
            old(self)@.finished().emits(prepared, old(self)@.finished().packs[0]),
            final(self)@ == (BuilderView {
                packs: Seq::empty(),
                ..old(self)@.finished()
            }),
            final(self)@.is_empty(),
            final(self).wf(),
    {
        match self.build_next() {
            Some(prepared) => {
                assert(old(self)@.finished().packs.skip(1) =~= Seq::<PackView>::empty());
                prepared
            },
            None => vstd::pervasive::unreached(),
        }
    }

    /// How many of `packs`, from the first, the next combined transaction takes,
    /// with copies of their instructions and descriptions.
    fn combine_front(&self, packs: &Vec<Vec<DescribedInstruction>>) -> (combined: (
        usize,
        Vec<Instruction>,
        Vec<Option<String>>,
    ))
        requires
            packs@.len() > 0,
            forall|i: int|
                0 <= i < packs@.len() ==> pack_valid(
                    self@.fee_payer,
                    self@.max_transaction_size,
                    self@.signers.dom(),
                    #[trigger] packs_view(packs@)[i],
                ),
        ensures
            combined.0 == combined_take(
                self@.fee_payer,
                packs_view(packs@),
                self@.max_transaction_size,
            ),
            1 <= combined.0 <= packs@.len(),
            instruction_views(combined.1@) == pack_instructions(
                concat_packs(packs_view(packs@), combined.0 as nat),
            ),
            description_texts(combined.2@) == pack_descriptions(
                concat_packs(packs_view(packs@), combined.0 as nat),
            ),
            pack_valid(
                self@.fee_payer,
                self@.max_transaction_size,
                self@.signers.dom(),
                concat_packs(packs_view(packs@), combined.0 as nat),
            ),
    {
        if self.max_transaction_size == 0 {
            let ghost views = packs_view(packs@);
            let ghost held = self@.signers.dom();
            let mut instructions: Vec<Instruction> = Vec::new();
            let mut descriptions: Vec<Option<String>> = Vec::new();
            let mut joined: usize = 0;
            proof {
                assert(concat_packs(views, 0) =~= Seq::<DescribedInstructionView>::empty());
                assert(instruction_views(instructions@) =~= pack_instructions(concat_packs(views, 0)));
                assert(description_texts(descriptions@) =~= pack_descriptions(
                    concat_packs(views, 0),
                ));
            }
            while joined < packs.len()
                invariant
                    joined <= packs.len(),
                    views == packs_view(packs@),
                    held == self@.signers.dom(),
                    forall|i: int|
                        0 <= i < views.len() ==> pack_valid(
                            self@.fee_payer,
                            self@.max_transaction_size,
                            held,
                            #[trigger] views[i],
                        ),
                    instruction_views(instructions@) == pack_instructions(
                        concat_packs(views, joined as nat),
                    ),
                    description_texts(descriptions@) == pack_descriptions(
                        concat_packs(views, joined as nat),
                    ),
                    forall|i: int|
                        0 <= i < concat_packs(views, joined as nat).len() ==> signers_known(
                            held,
                            (#[trigger] concat_packs(views, joined as nat)[i]).instruction,
                        ),
                decreases packs.len() - joined,
            {
                let ghost so_far = concat_packs(views, joined as nat);
                let ghost longer = concat_packs(views, (joined + 1) as nat);
                append_instructions(&mut instructions, &packs[joined]);
                append_descriptions(&mut descriptions, &packs[joined]);
                proof {
                    assert(longer == so_far + views[joined as int]);
                    assert(instruction_views(instructions@) =~= pack_instructions(longer));
                    assert(description_texts(descriptions@) =~= pack_descriptions(longer));
                    assert forall|i: int| 0 <= i < longer.len() implies signers_known(
                        held,
                        (#[trigger] longer[i]).instruction,
                    ) by {
                        if i < so_far.len() {
                            assert(longer[i] == so_far[i]);
                        } else {
                            assert(longer[i] == views[joined as int][i - so_far.len()]);
                        }
                    }
                }
                joined += 1;
            }
            if is_encodable(&self.fee_payer, &instructions) {
                return (joined, instructions, descriptions);
            }
        }
        self.combine_greedy(packs)
    }

    /// How many of `packs`, from the first, end up in one transaction when each
    /// further pack joins as long as the whole still fits, with copies of their
    /// instructions and descriptions.
    fn combine_greedy(&self, packs: &Vec<Vec<DescribedInstruction>>) -> (combined: (
        usize,
        Vec<Instruction>,
        Vec<Option<String>>,
    ))
        requires
            packs@.len() > 0,
            forall|i: int|
                0 <= i < packs@.len() ==> pack_valid(
                    self@.fee_payer,
                    self@.max_transaction_size,
                    self@.signers.dom(),
                    #[trigger] packs_view(packs@)[i],
                ),
        ensures
            combined.0 == greedy_count(
                self@.fee_payer,
                packs_view(packs@),
                self@.max_transaction_size,
                1,
            ),
            1 <= combined.0 <= packs@.len(),
            instruction_views(combined.1@) == pack_instructions(
                concat_packs(packs_view(packs@), combined.0 as nat),
            ),
            description_texts(combined.2@) == pack_descriptions(
                concat_packs(packs_view(packs@), combined.0 as nat),
            ),
            pack_valid(
                self@.fee_payer,
                self@.max_transaction_size,
                self@.signers.dom(),
                concat_packs(packs_view(packs@), combined.0 as nat),
            ),
    {
        let ghost views = packs_view(packs@);
        let ghost held = self@.signers.dom();
        let mut instructions: Vec<Instruction> = Vec::new();
        append_instructions(&mut instructions, &packs[0]);
        let mut descriptions: Vec<Option<String>> = Vec::new();
        append_descriptions(&mut descriptions, &packs[0]);
        proof {
            assert(concat_packs(views, 0) =~= Seq::<DescribedInstructionView>::empty());
            assert(concat_packs(views, 1) =~= views[0]);
            assert(instruction_views(instructions@) =~= pack_instructions(concat_packs(views, 1)));
            assert(description_texts(descriptions@) =~= pack_descriptions(concat_packs(views, 1)));
        }
        let mut merged: usize = 1;
        let mut extending = true;
        while extending && merged < packs.len()
            invariant
                1 <= merged <= packs.len(),
                !extending ==> greedy_count(
                    self@.fee_payer,
                    views,
                    self@.max_transaction_size,
                    merged as nat,
                ) == merged,
                views == packs_view(packs@),
                held == self@.signers.dom(),
                forall|i: int|
                    0 <= i < views.len() ==> pack_valid(
                        self@.fee_payer,
                        self@.max_transaction_size,
                        held,
                        #[trigger] views[i],
                    ),
                greedy_count(self@.fee_payer, views, self@.max_transaction_size, merged as nat)
                    == greedy_count(self@.fee_payer, views, self@.max_transaction_size, 1),
                instruction_views(instructions@) == pack_instructions(
                    concat_packs(views, merged as nat),
                ),
                description_texts(descriptions@) == pack_descriptions(
                    concat_packs(views, merged as nat),
                ),
                pack_valid(
                    self@.fee_payer,
                    self@.max_transaction_size,
                    held,
                    concat_packs(views, merged as nat),
                ),
            decreases packs.len() - merged + (if extending { 1nat } else { 0nat }),
        {
            let ghost so_far = concat_packs(views, merged as nat);
            let ghost longer = concat_packs(views, (merged + 1) as nat);
            let mut candidate = crate::instruction::copy_instructions(&instructions);
            append_instructions(&mut candidate, &packs[merged]);
            proof {
                assert(longer == so_far + views[merged as int]);
                assert(instruction_views(candidate@) =~= pack_instructions(longer));
            }
            if fits_budget(&self.fee_payer, &candidate, self.max_transaction_size) {
                instructions = candidate;
                append_descriptions(&mut descriptions, &packs[merged]);
                proof {
                    assert(description_texts(descriptions@) =~= pack_descriptions(longer));
                    assert forall|i: int| 0 <= i < longer.len() implies signers_known(
                        held,
                        (#[trigger] longer[i]).instruction,
                    ) by {
                        if i < so_far.len() {
                            assert(longer[i] == so_far[i]);
                        } else {
                            assert(longer[i] == views[merged as int][i - so_far.len()]);
                        }
                    }
                }
                merged += 1;
            } else {
                extending = false;
            }
        }
        (merged, instructions, descriptions)
    }

    /// The next transaction, made of the oldest pack and of as many of the packs
    /// after it as fit with it; without a budget, of all packs, where the wire
    /// format can hold them together. Nothing once no pack is left. The current
    /// pack, unless empty, is finished first.
    pub fn build_next_combined(&mut self) -> (prepared: Option<PreparedTransaction>)
        ensures
            match prepared {
                Some(made) => {
                    let before = old(self)@.finished();
                    let taken = combined_take(
                        before.fee_payer,
                        before.packs,
                        before.max_transaction_size,
                    );
                    &&& before.packs.len() > 0
                    &&& 1 <= taken <= before.packs.len()
                    &&& before.emits(made, concat_packs(before.packs, taken))
                    &&& final(self)@ == (BuilderView {
                        packs: before.packs.skip(taken as int),
                        ..before
                    })
                },
                None => old(self)@.is_empty() && final(self)@ == old(self)@,
            },
            final(self).wf(),
    {
        proof {
            use_type_invariant(&*self);
        }
        if !self.is_current_pack_empty() {
            self.finish_instruction_pack();
        }
        proof {
            use_type_invariant(&*self);
        }
        let ghost before = self@;
        assert(before == old(self)@.finished());
        if self.instruction_packs.is_empty() {
            return None;
        }
        let (taken, instructions, descriptions) = self.combine_front(&self.instruction_packs);
        let mut packs: Vec<Vec<DescribedInstruction>> = Vec::new();
        proof {
            assert(packs_view(packs@) =~= Seq::<PackView>::empty());
        }
        std::mem::swap(&mut packs, &mut self.instruction_packs);
        let rest = packs.split_off(taken);
        proof {
            assert(packs_view(rest@) =~= before.packs.skip(taken as int));
            assert forall|i: int| 0 <= i < before.packs.skip(taken as int).len() implies pack_valid(
                before.fee_payer,
                before.max_transaction_size,
                before.signers.dom(),
                #[trigger] before.packs.skip(taken as int)[i],
            ) by {
                assert(before.packs.skip(taken as int)[i] == before.packs[i + taken]);
            }
        }
        self.instruction_packs = rest;
        let prepared = self.prepare(
            instructions,
            descriptions,
            Ghost(concat_packs(before.packs, taken as nat)),
        );
        Some(prepared)
    }

    /// The one transaction that holds every pack, where they all fit together;
    /// nothing, and no pack consumed, where the builder is empty or they do not.
    /// The current pack, unless empty, is finished first.
    pub fn build_single_combined(&mut self) -> (prepared: Option<PreparedTransaction>)
        ensures
            match prepared {
                Some(made) => {
                    let before = old(self)@.finished();
                    &&& before.packs.len() > 0
                    &&& combined_take(before.fee_payer, before.packs, before.max_transaction_size)
                        == before.packs.len()
                    &&& before.emits(made, concat_packs(before.packs, before.packs.len()))
                    &&& final(self)@ == (BuilderView { packs: Seq::empty(), ..before })
                },
                None => {
                    let before = old(self)@.finished();
                    &&& final(self)@ == before
                    &&& before.packs.len() == 0 || combined_take(
                        before.fee_payer,
                        before.packs,
                        before.max_transaction_size,
                    ) < before.packs.len()
                },
            },
            final(self).wf(),
    {
        proof {
            use_type_invariant(&*self);
        }
        if !self.is_current_pack_empty() {
            self.finish_instruction_pack();
        }
        proof {
            use_type_invariant(&*self);
        }
        let ghost before = self@;
        assert(before == old(self)@.finished());
        if self.instruction_packs.is_empty() {
            return None;
        }
        let (taken, instructions, descriptions) = self.combine_front(&self.instruction_packs);
        if taken < self.instruction_packs.len() {
            return None;
        }
        let packs: Vec<Vec<DescribedInstruction>> = Vec::new();
        proof {
            assert(packs_view(packs@) =~= Seq::<PackView>::empty());
        }
        self.instruction_packs = packs;
        let prepared = self.prepare(
            instructions,
            descriptions,
            Ghost(concat_packs(before.packs, taken as nat)),
        );
        Some(prepared)
    }

    /// Whether every instruction that waits in the builder fits one transaction:
    /// the wire format can hold them together, and where a budget is set the
    /// transaction is within it.
    pub fn fits_single_transaction(&self) -> (fitting: bool)
        ensures
            fitting == (encodable(self@.fee_payer, self@.all_instructions()) && within_budget(
                self@.fee_payer,
                self@.all_instructions(),
                self@.max_transaction_size,
            )),
    {
        let instructions = self.instructions();
        fits_budget(&self.fee_payer, &instructions, self.max_transaction_size)
    }

    /// Copies of every instruction that waits in the builder, the finished packs
    /// first, without the descriptions.
    pub fn instructions(&self) -> (instructions: Vec<Instruction>)
        ensures
            instruction_views(instructions@) == self@.all_instructions(),
    {
        let ghost views = packs_view(self.instruction_packs@);
        let mut instructions: Vec<Instruction> = Vec::new();
        let mut i: usize = 0;
        proof {
            assert(instruction_views(instructions@) =~= pack_instructions(concat_packs(views, 0)));
        }
        while i < self.instruction_packs.len()
            invariant
                i <= self.instruction_packs.len(),
                views == packs_view(self.instruction_packs@),
                instruction_views(instructions@) == pack_instructions(concat_packs(views, i as nat)),
            decreases self.instruction_packs.len() - i,
        {
            append_instructions(&mut instructions, &self.instruction_packs[i]);
            proof {
                assert(concat_packs(views, (i + 1) as nat) == concat_packs(views, i as nat)
                    + views[i as int]);
                assert(instruction_views(instructions@) =~= pack_instructions(
                    concat_packs(views, (i + 1) as nat),
                ));
            }
            i += 1;
        }
        append_instructions(&mut instructions, &self.current_instruction_pack);
        proof {
            assert(instruction_views(instructions@) =~= self@.all_instructions());
        }
        instructions
    }
}

/// The instructions as entries without descriptions.
pub open spec fn undescribed(instructions: Seq<InstructionView>) -> PackView {
    Seq::new(
        instructions.len(),
        |i: int| DescribedInstructionView { instruction: instructions[i], description: None },
    )
}

/// The pairs as entries with descriptions.
pub open spec fn described(pairs: Seq<(Instruction, String)>) -> PackView {
    Seq::new(
        pairs.len(),
        |i: int| DescribedInstructionView { instruction: pairs[i].0@, description: Some(pairs[i].1@) },
    )
}

/// What holds of a transaction that a builder emits for the instructions of
/// `contents`: it carries them and their descriptions in order, the fee payer pays,
/// a key pair of the builder stands for each required signer, and unless it is
/// empty it fits the size budget.
pub open spec fn emitted(
    prepared: PreparedTransaction,
    fee_payer: Pubkey,
    max_size: usize,
    signers: Map<Pubkey, Arc<Keypair>>,
    contents: PackView,
) -> bool {
    &&& prepared.transaction.wf()
    &&& prepared.transaction@.fee_payer == fee_payer
    &&& prepared.transaction@.instructions == pack_instructions(contents)
    &&& description_texts(prepared.instruction_descriptions@) == pack_descriptions(contents)
    &&& signers_for(signers, prepared.transaction@.signer_keys) == Ok::<Seq<Arc<Keypair>>, Pubkey>(
        prepared.signers@,
    )
    &&& prepared.ready()
    &&& contents.len() > 0 ==> fits(fee_payer, pack_instructions(contents), max_size)
}

impl BuilderView {
    /// The contents of the transactions that a builder in this state emits until
    /// it is drained, one per pack or combined.
    pub open spec fn emission_groups(self, is_one_by_one: bool) -> Seq<PackView> {
        if is_one_by_one {
            one_by_one_groups(self.finished().packs)
        } else {
            combined_groups(self.fee_payer, self.finished().packs, self.max_transaction_size)
        }
    }

    /// The builder after everything that waited in it has been emitted.
    pub open spec fn drained(self) -> BuilderView {
        BuilderView { packs: Seq::empty(), current: Seq::empty(), ..self }
    }

    /// What holds of a transaction that a builder in this state emits for the
    /// instructions of `contents`.
    pub open spec fn emits(self, prepared: PreparedTransaction, contents: PackView) -> bool {
        emitted(prepared, self.fee_payer, self.max_transaction_size, self.signers, contents)
    }
}

/// Emits transactions until the builder is empty, one per pack or combined.
fn drain(builder: &mut TransactionBuilder, is_one_by_one: bool) -> (all: Vec<PreparedTransaction>)
    ensures
        final(builder)@ == old(builder)@.drained(),
        all@.len() == old(builder)@.emission_groups(is_one_by_one).len(),
        forall|i: int|
            0 <= i < all@.len() ==> old(builder)@.emits(
                #[trigger] all@[i],
                old(builder)@.emission_groups(is_one_by_one)[i],
            ),
{
    let ghost start = builder@;
    let ghost groups = start.emission_groups(is_one_by_one);
    let mut all: Vec<PreparedTransaction> = Vec::new();
    let mut draining = true;
    while draining
        invariant
            groups == start.emission_groups(is_one_by_one),
            builder@.fee_payer == start.fee_payer,
            builder@.max_transaction_size == start.max_transaction_size,
            builder@.signers == start.signers,
            !draining ==> builder@.is_empty(),
            all@.len() <= groups.len(),
            groups.skip(all@.len() as int) == builder@.emission_groups(is_one_by_one),
            forall|i: int| 0 <= i < all@.len() ==> start.emits(#[trigger] all@[i], groups[i]),
        decreases builder@.finished().packs.len() + (if draining {
                1nat
            } else {
                0nat
            }),
    {
        let ghost before = builder@;
        let ghost done = all@.len() as int;
        let next = if is_one_by_one {
            builder.build_next()
        } else {
            builder.build_next_combined()
        };
        match next {
            Some(prepared) => {
                proof {
                    let after = builder@;
                    let rest = groups.skip(done);
                    assert(after.finished() == after);
                    assert(rest.len() > 0);
                    assert(groups[done] == rest[0]);
                    assert(after.emission_groups(is_one_by_one) =~= rest.skip(1));
                    assert(rest.skip(1) =~= groups.skip(done + 1));
                    assert(start.emits(prepared, groups[done]));
                }
                all.push(prepared);
            },
            None => {
                draining = false;
                proof {
                    assert(before.emission_groups(is_one_by_one).len() == 0);
                }
            },
        }
    }
    proof {
        assert(builder@.emission_groups(is_one_by_one).len() == 0);
        assert(builder@.packs =~= Seq::<PackView>::empty());
        assert(builder@.current =~= Seq::<DescribedInstructionView>::empty());
    }
    all
}

/// The transactions of a builder, one per pack, oldest first.
pub struct Sequence<'a> {
    pub builder: &'a mut TransactionBuilder,
}

impl<'a> Sequence<'a> {
    /// The next transaction, as `TransactionBuilder::build_next` gives it.
    pub fn next(&mut self) -> (prepared: Option<PreparedTransaction>)
        ensures
            match prepared {
                Some(made) => {
                    &&& old(self).builder@.finished().packs.len() > 0
                    &&& old(self).builder@.finished().emits(
                        made,
                        old(self).builder@.finished().packs[0],
                    )
                    &&& final(self).builder@ == (BuilderView {
                        packs: old(self).builder@.finished().packs.skip(1),
                        ..old(self).builder@.finished()
                    })
                },
                None => old(self).builder@.is_empty() && final(self).builder@ == old(self).builder@,
            },
            *final(final(self).builder) == *final(old(self).builder),
    {
        self.builder.build_next()
    }

    /// Every transaction that is left, in the order of emission; the builder is
    /// empty afterwards.
    pub fn collect(self) -> (all: Vec<PreparedTransaction>)
        ensures
            final(self.builder)@ == old(self.builder)@.drained(),
            all@.len() == old(self.builder)@.emission_groups(true).len(),
            forall|i: int|
                0 <= i < all@.len() ==> old(self.builder)@.emits(
                    #[trigger] all@[i],
                    old(self.builder)@.emission_groups(true)[i],
                ),
    {
        drain(self.builder, true)
    }
}

/// The transactions of a builder, each of as many packs as fit, oldest first.
pub struct CombinedSequence<'a> {
    pub builder: &'a mut TransactionBuilder,
}

impl<'a> CombinedSequence<'a> {
    /// The next transaction, as `TransactionBuilder::build_next_combined` gives it.
    pub fn next(&mut self) -> (prepared: Option<PreparedTransaction>)
        ensures
            match prepared {
                Some(made) => {
                    let before = old(self).builder@.finished();
                    let taken = combined_take(
                        before.fee_payer,
                        before.packs,
                        before.max_transaction_size,
                    );
                    &&& before.packs.len() > 0
                    &&& 1 <= taken <= before.packs.len()
                    &&& before.emits(made, concat_packs(before.packs, taken))
                    &&& final(self).builder@ == (BuilderView {
                        packs: before.packs.skip(taken as int),
                        ..before
                    })
                },
                None => old(self).builder@.is_empty() && final(self).builder@ == old(self).builder@,
            },
            *final(final(self).builder) == *final(old(self).builder),
    {
        self.builder.build_next_combined()
    }

    /// Every transaction that is left, in the order of emission; the builder is
    /// empty afterwards.
    pub fn collect(self) -> (all: Vec<PreparedTransaction>)
        ensures
            final(self.builder)@ == old(self.builder)@.drained(),
            all@.len() == old(self.builder)@.emission_groups(false).len(),
            forall|i: int|
                0 <= i < all@.len() ==> old(self.builder)@.emits(
                    #[trigger] all@[i],
                    old(self.builder)@.emission_groups(false)[i],
                ),
    {
        drain(self.builder, false)
    }
}

impl TransactionBuilder {
    /// The transactions of this builder, one per pack.
    pub fn sequence(&mut self) -> (sequence: Sequence<'_>)
        ensures
            *sequence.builder == *old(self),
            *final(self) == *final(sequence.builder),
    {
        Sequence { builder: self }
    }

    /// The transactions of this builder, each of as many packs as fit.
    pub fn sequence_combined(&mut self) -> (sequence: CombinedSequence<'_>)
        ensures
            *sequence.builder == *old(self),
            *final(self) == *final(sequence.builder),
    {
        CombinedSequence { builder: self }
    }
}

/// In a valid builder a key pair is held for every account that has to sign, of
/// every instruction that waits in a finished pack or in the current one.
pub proof fn lemma_admitted_signers_are_held(builder: BuilderView, pack: PackView, entry: int, account: int)
    requires
        builder.valid(),
        pack == builder.current || exists|i: int|
            0 <= i < builder.packs.len() && builder.packs[i] == pack,
        0 <= entry < pack.len(),
        0 <= account < pack[entry].instruction.accounts.len(),
        pack[entry].instruction.accounts[account].is_signer,
    ensures
        builder.signers.dom().contains(pack[entry].instruction.accounts[account].pubkey),
{
    assert(pack_valid(
        builder.fee_payer,
        builder.max_transaction_size,
        builder.signers.dom(),
        pack,
    ));
    assert(signers_known(builder.signers.dom(), pack[entry].instruction));
    assert(!unknown_signer_at(builder.signers.dom(), pack[entry].instruction, account));
}

/// For an emitted transaction the registry of its builder holds a key pair for
/// every required signer: the lookup succeeds with as many key pairs as the
/// message requires signatures, and they are the ones that the transaction carries.
pub proof fn lemma_emitted_has_all_signers(
    prepared: PreparedTransaction,
    fee_payer: Pubkey,
    max_size: usize,
    signers: Map<Pubkey, Arc<Keypair>>,
    contents: PackView,
)
    requires
        emitted(prepared, fee_payer, max_size, signers, contents),
    ensures
        signers_for(signers, prepared.transaction@.signer_keys) matches Ok(found) && found.len()
            == prepared.transaction@.signer_keys.len() && found == prepared.signers@,
        holds_all(
            signers,
            prepared.transaction@.signer_keys,
            prepared.transaction@.signer_keys.len() as int,
        ),
{
}

/// An emitted transaction with at least one instruction, of a builder with a size
/// budget, has a wire encoding of at most that many bytes.
pub proof fn lemma_emitted_fits_budget(
    prepared: PreparedTransaction,
    fee_payer: Pubkey,
    max_size: usize,
    signers: Map<Pubkey, Arc<Keypair>>,
    contents: PackView,
)
    requires
        emitted(prepared, fee_payer, max_size, signers, contents),
        max_size > 0,
        contents.len() > 0,
    ensures
        crate::transaction::transaction_wire_bytes(
            prepared.transaction@.fee_payer,
            prepared.transaction@.instructions,
        ) matches Some(bytes) && bytes.len() <= max_size,
{
}

/// An emitted transaction with at least one instruction, of a builder with a size
/// budget, is within the budget also once it is signed: a signed transaction that
/// is as long as the measured one has a wire encoding of at most that many bytes.
pub proof fn lemma_signed_fits_budget(
    prepared: PreparedTransaction,
    fee_payer: Pubkey,
    max_size: usize,
    signers: Map<Pubkey, Arc<Keypair>>,
    contents: PackView,
    made: solana_sdk::transaction::Transaction,
)
    requires
        emitted(prepared, fee_payer, max_size, signers, contents),
        max_size > 0,
        contents.len() > 0,
        prepared.measured_as(made),
    ensures
        crate::transaction::carried_wire_bytes(made) matches Some(bytes) && bytes.len() <= max_size,
{
}

/// A drained builder is empty, and emits nothing more in either way.
pub proof fn lemma_drained_is_empty(builder: BuilderView)
    ensures
        builder.drained().is_empty(),
        builder.drained().emission_groups(true).len() == 0,
        builder.drained().emission_groups(false).len() == 0,
{
}

/// Whichever way a builder is drained, the emitted transactions hold, laid end to
/// end, every instruction that waited in it with its description, in the order of
/// admission.
pub proof fn lemma_emissions_keep_everything(builder: BuilderView, is_one_by_one: bool)
    ensures
        pack_instructions(
            concat_packs(
                builder.emission_groups(is_one_by_one),
                builder.emission_groups(is_one_by_one).len(),
            ),
        ) == builder.all_instructions(),
{
    let packs = builder.finished().packs;
    if !is_one_by_one {
        crate::packing::lemma_combined_groups_keep_everything(
            builder.fee_payer,
            packs,
            builder.max_transaction_size,
        );
    }
    if builder.current.len() == 0 {
        assert(concat_packs(builder.packs, builder.packs.len()) + builder.current
            =~= concat_packs(packs, packs.len()));
    } else {
        assert(packs.drop_last() =~= builder.packs);
        lemma_concat_packs_same(builder.packs, packs, builder.packs.len());
    }
}

/// Laying packs end to end looks at the packs laid only.
proof fn lemma_concat_packs_same(a: Seq<PackView>, b: Seq<PackView>, n: nat)
    requires
        n <= a.len(),
        n <= b.len(),
        forall|i: int| 0 <= i < n ==> a[i] == b[i],
    ensures
        concat_packs(a, n) == concat_packs(b, n),
    decreases n,
{
    if n > 0 {
        lemma_concat_packs_same(a, b, (n - 1) as nat);
    }
}

/// Emitting combined transactions yields no more of them than emitting one per
/// pack.
pub proof fn lemma_combined_sequence_emits_no_more(builder: BuilderView)
    ensures
        builder.emission_groups(false).len() <= builder.emission_groups(true).len(),
{
    crate::packing::lemma_combined_emits_no_more(
        builder.fee_payer,
        builder.finished().packs,
        builder.max_transaction_size,
    );
}

} // verus!
