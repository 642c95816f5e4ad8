//! Instructions and their account references as plain values.

use vstd::prelude::*;
use crate::pubkey::Pubkey;

verus! {

/// One account that an instruction touches.
#[derive(Clone, Copy, Debug, PartialEq, Eq)]
pub struct AccountMeta {
    pub pubkey: Pubkey,
    pub is_signer: bool,
    pub is_writable: bool,
}

impl AccountMeta {
    /// A writable account.
    pub fn new(pubkey: Pubkey, is_signer: bool) -> (meta: AccountMeta)
        ensures
            meta == (AccountMeta { pubkey, is_signer, is_writable: true }),
    {
        AccountMeta { pubkey, is_signer, is_writable: true }
    }

    /// A read-only account.
    pub fn new_readonly(pubkey: Pubkey, is_signer: bool) -> (meta: AccountMeta)
        ensures
            meta == (AccountMeta { pubkey, is_signer, is_writable: false }),
    {
        AccountMeta { pubkey, is_signer, is_writable: false }
    }
}

/// A call of one program: its address, the accounts it touches and its payload.
#[derive(Debug)]
pub struct Instruction {
    pub program_id: Pubkey,
    pub accounts: Vec<AccountMeta>,
    pub data: Vec<u8>,
}

/// What an instruction holds.
pub struct InstructionView {
    pub program_id: Pubkey,
    pub accounts: Seq<AccountMeta>,
    pub data: Seq<u8>,
}

impl View for Instruction {
    type V = InstructionView;

    open spec fn view(&self) -> InstructionView {
        InstructionView { program_id: self.program_id, accounts: self.accounts@, data: self.data@ }
    }
}

impl Clone for Instruction {
    fn clone(&self) -> (copy: Self)
        ensures
            copy@ == self@,
    {
        Instruction {
            program_id: self.program_id,
            accounts: copy_accounts(&self.accounts),
            data: copy_bytes(&self.data),
        }
    }
}

/// A copy of a list of account references.
pub(crate) fn copy_accounts(accounts: &Vec<AccountMeta>) -> (copy: Vec<AccountMeta>)
    ensures
        copy@ == accounts@,
{
    let mut copy: Vec<AccountMeta> = Vec::new();
    let mut i: usize = 0;
    while i < accounts.len()
        invariant
            i <= accounts.len(),
            copy@ == accounts@.subrange(0, i as int),
        decreases accounts.len() - i,
    {
        copy.push(accounts[i]);
        assert(copy@ =~= accounts@.subrange(0, i + 1));
        i += 1;
    }
    assert(accounts@.subrange(0, i as int) =~= accounts@);
    copy
}

/// A copy of a byte string.
pub(crate) fn copy_bytes(bytes: &Vec<u8>) -> (copy: Vec<u8>)
    ensures
        copy@ == bytes@,
{
    let mut copy: Vec<u8> = Vec::new();
    let mut i: usize = 0;
    while i < bytes.len()
        invariant
            i <= bytes.len(),
            copy@ == bytes@.subrange(0, i as int),
        decreases bytes.len() - i,
    {
        copy.push(bytes[i]);
        assert(copy@ =~= bytes@.subrange(0, i + 1));
        i += 1;
    }
    assert(bytes@.subrange(0, i as int) =~= bytes@);
    copy
}

/// The views of a list of instructions, in order.
pub open spec fn instruction_views(instructions: Seq<Instruction>) -> Seq<InstructionView> {
    Seq::new(instructions.len(), |i: int| instructions[i]@)
}

/// A copy of a list of instructions.
pub(crate) fn copy_instructions(instructions: &Vec<Instruction>) -> (copy: Vec<Instruction>)
    ensures
        instruction_views(copy@) == instruction_views(instructions@),
{
    let mut copy: Vec<Instruction> = Vec::new();
    let mut i: usize = 0;
    while i < instructions.len()
        invariant
            i <= instructions.len(),
            copy@.len() == i,
            forall|j: int| 0 <= j < i ==> copy@[j]@ == instructions@[j]@,
        decreases instructions.len() - i,
    {
        copy.push(instructions[i].clone());
        i += 1;
    }
    assert(instruction_views(copy@) =~= instruction_views(instructions@));
    copy
}

} // verus!
