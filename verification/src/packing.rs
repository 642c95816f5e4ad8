//! Packs of instructions and the rules by which they are admitted and combined.

use vstd::prelude::*;
use crate::instruction::{instruction_views, Instruction, InstructionView};
use crate::message::{encodable, is_encodable};
use crate::pubkey::Pubkey;
use crate::transaction::{serialize_unsigned, transaction_wire_bytes};

verus! {

/// An instruction with the words that describe it, if any.
#[derive(Debug)]
pub struct DescribedInstruction {
    pub instruction: Instruction,
    pub description: Option<String>,
}

/// What a described instruction holds.
pub struct DescribedInstructionView {
    pub instruction: InstructionView,
    pub description: Option<Seq<char>>,
}

impl View for DescribedInstruction {
    type V = DescribedInstructionView;

    open spec fn view(&self) -> DescribedInstructionView {
        DescribedInstructionView {
            instruction: self.instruction@,
            description: match self.description {
                Some(text) => Some(text@),
                None => None,
            },
        }
    }
}

impl Clone for DescribedInstruction {
    fn clone(&self) -> (copy: Self)
        ensures
            copy@ == self@,
    {
        DescribedInstruction {
            instruction: self.instruction.clone(),
            description: match &self.description {
                Some(text) => Some(text.clone()),
                None => None,
            },
        }
    }
}

/// A pack: instructions that are to land together in one transaction.
pub type PackView = Seq<DescribedInstructionView>;

/// What a pack holds.
pub open spec fn pack_view(pack: Seq<DescribedInstruction>) -> PackView {
    Seq::new(pack.len(), |i: int| pack[i]@)
}

/// What a list of packs holds.
pub open spec fn packs_view(packs: Seq<Vec<DescribedInstruction>>) -> Seq<PackView> {
    Seq::new(packs.len(), |i: int| pack_view(packs[i]@))
}

/// The instructions of a pack, in order.
pub open spec fn pack_instructions(pack: PackView) -> Seq<InstructionView> {
    Seq::new(pack.len(), |i: int| pack[i].instruction)
}

/// The descriptions of a pack, in the order of its instructions.
pub open spec fn pack_descriptions(pack: PackView) -> Seq<Option<Seq<char>>> {
    Seq::new(pack.len(), |i: int| pack[i].description)
}

/// The first `n` packs laid end to end.
pub open spec fn concat_packs(packs: Seq<PackView>, n: nat) -> PackView
    decreases n,
{
    if n == 0 {
        Seq::empty()
    } else {
        concat_packs(packs, (n - 1) as nat) + packs[n - 1]
    }
}

/// Whether the transaction of these instructions, paid by `fee_payer`, stays within
/// the budget of `max_size` bytes. A `max_size` of 0 sets no budget: then nothing is
/// measured and every transaction is within it.
pub open spec fn within_budget(fee_payer: Pubkey, instructions: Seq<InstructionView>, max_size: usize) -> bool {
    max_size == 0 || match transaction_wire_bytes(fee_payer, instructions) {
        Some(bytes) => bytes.len() <= max_size,
        None => false,
    }
}

/// Whether the instructions, paid by `fee_payer`, can stand in one transaction of
/// a builder with the budget `max_size`: the wire format can hold the transaction,
/// and it is within the budget.
pub open spec fn fits(fee_payer: Pubkey, instructions: Seq<InstructionView>, max_size: usize) -> bool {
    encodable(fee_payer, instructions) && within_budget(fee_payer, instructions, max_size)
}

/// What holds of every pack of a builder: it can be encoded, and unless it is empty
/// it fits the budget.
pub open spec fn pack_fits(fee_payer: Pubkey, pack: PackView, max_size: usize) -> bool {
    if pack.len() == 0 {
        encodable(fee_payer, pack_instructions(pack))
    } else {
        fits(fee_payer, pack_instructions(pack), max_size)
    }
}

/// How many of `packs`, from the first, end up in one transaction when `merged` of
/// them are in it already: the next pack joins as long as the whole still fits.
pub open spec fn greedy_count(fee_payer: Pubkey, packs: Seq<PackView>, max_size: usize, merged: nat) -> nat
    decreases packs.len() - merged,
{
    if merged >= packs.len() {
        merged
    } else if fits(
        fee_payer,
        pack_instructions(concat_packs(packs, merged + 1)),
        max_size,
    ) {
        greedy_count(fee_payer, packs, max_size, merged + 1)
    } else {
        merged
    }
}

/// How many of `packs`, from the first, the next combined transaction takes.
/// Without a budget it takes them all, where the wire format can hold them in one
/// transaction. Else the packs after the first join one by one, as long as the
/// whole still fits.
pub open spec fn combined_take(fee_payer: Pubkey, packs: Seq<PackView>, max_size: usize) -> nat {
    if max_size == 0 && encodable(
        fee_payer,
        pack_instructions(concat_packs(packs, packs.len())),
    ) {
        packs.len()
    } else {
        greedy_count(fee_payer, packs, max_size, 1)
    }
}

/// The contents of the transactions that come out of `packs` when each pack makes
/// one.
pub open spec fn one_by_one_groups(packs: Seq<PackView>) -> Seq<PackView> {
    packs
}

/// The contents of the transactions that come out of `packs` when packs are
/// combined greedily, oldest first.
pub open spec fn combined_groups(fee_payer: Pubkey, packs: Seq<PackView>, max_size: usize) -> Seq<PackView>
    decreases packs.len(),
    via combined_groups_decreases
{
    if packs.len() == 0 {
        Seq::empty()
    } else {
        let taken = combined_take(fee_payer, packs, max_size);
        seq![concat_packs(packs, taken)] + combined_groups(fee_payer, packs.skip(taken as int), max_size)
    }
}

#[via_fn]
proof fn combined_groups_decreases(fee_payer: Pubkey, packs: Seq<PackView>, max_size: usize) {
    if packs.len() > 0 {
        lemma_combined_take_bounds(fee_payer, packs, max_size);
    }
}

/// How many transactions come out of `packs` when each pack makes one.
pub open spec fn one_by_one_emissions(packs: Seq<PackView>) -> nat {
    one_by_one_groups(packs).len()
}

/// How many transactions come out of `packs` when packs are combined greedily.
pub open spec fn combined_emissions(fee_payer: Pubkey, packs: Seq<PackView>, max_size: usize) -> nat {
    combined_groups(fee_payer, packs, max_size).len()
}

/// A combined transaction takes at least what was merged and at most every pack.
pub proof fn lemma_greedy_count_bounds(fee_payer: Pubkey, packs: Seq<PackView>, max_size: usize, merged: nat)
    requires
        merged <= packs.len(),
    ensures
        merged <= greedy_count(fee_payer, packs, max_size, merged) <= packs.len(),
    decreases packs.len() - merged,
{
    if merged < packs.len() && fits(
        fee_payer,
        pack_instructions(concat_packs(packs, merged + 1)),
        max_size,
    ) {
        lemma_greedy_count_bounds(fee_payer, packs, max_size, merged + 1);
    }
}

/// A combined transaction takes at least the first pack and at most every pack.
pub proof fn lemma_combined_take_bounds(fee_payer: Pubkey, packs: Seq<PackView>, max_size: usize)
    requires
        packs.len() > 0,
    ensures
        1 <= combined_take(fee_payer, packs, max_size) <= packs.len(),
{
    lemma_greedy_count_bounds(fee_payer, packs, max_size, 1);
}

/// Combining packs never makes more transactions than sending each pack alone.
pub proof fn lemma_combined_emits_no_more(fee_payer: Pubkey, packs: Seq<PackView>, max_size: usize)
    ensures
        combined_emissions(fee_payer, packs, max_size) <= one_by_one_emissions(packs),
    decreases packs.len(),
{
    if packs.len() > 0 {
        lemma_combined_take_bounds(fee_payer, packs, max_size);
        lemma_combined_emits_no_more(
            fee_payer,
            packs.skip(combined_take(fee_payer, packs, max_size) as int),
            max_size,
        );
    }
}

/// Packs laid end to end can be split at any pack.
proof fn lemma_concat_packs_split(packs: Seq<PackView>, at: nat, n: nat)
    requires
        at <= n <= packs.len(),
    ensures
        concat_packs(packs, n) == concat_packs(packs, at) + concat_packs(
            packs.skip(at as int),
            (n - at) as nat,
        ),
    decreases n - at,
{
    if at < n {
        lemma_concat_packs_split(packs, at, (n - 1) as nat);
        assert(packs.skip(at as int)[n - 1 - at] == packs[n - 1]);
        assert(concat_packs(packs, n) =~= concat_packs(packs, at) + concat_packs(
            packs.skip(at as int),
            (n - at) as nat,
        ));
    } else {
        assert(concat_packs(packs, n) =~= concat_packs(packs, at) + concat_packs(
            packs.skip(at as int),
            0,
        ));
    }
}

/// A first group and further groups laid end to end.
proof fn lemma_concat_packs_first(first: PackView, others: Seq<PackView>, n: nat)
    requires
        n <= others.len(),
    ensures
        concat_packs(seq![first] + others, n + 1) == first + concat_packs(others, n),
    decreases n,
{
    let all = seq![first] + others;
    if n > 0 {
        lemma_concat_packs_first(first, others, (n - 1) as nat);
        assert(all[n as int] == others[n - 1]);
        assert(concat_packs(all, n + 1) =~= first + concat_packs(others, n));
    } else {
        assert(all[0] == first);
        assert(concat_packs(all, 0) =~= Seq::<DescribedInstructionView>::empty());
        assert(concat_packs(all, 1) =~= first + concat_packs(others, 0));
    }
}

/// Combining loses nothing and changes no order: the combined transactions, laid
/// end to end, hold the instructions of all packs with their descriptions, in the
/// order of the packs.
pub proof fn lemma_combined_groups_keep_everything(fee_payer: Pubkey, packs: Seq<PackView>, max_size: usize)
    ensures
        concat_packs(
            combined_groups(fee_payer, packs, max_size),
            combined_groups(fee_payer, packs, max_size).len(),
        ) == concat_packs(packs, packs.len()),
    decreases packs.len(),
{
    let groups = combined_groups(fee_payer, packs, max_size);
    if packs.len() == 0 {
        assert(concat_packs(groups, groups.len()) =~= concat_packs(packs, packs.len()));
    } else {
        lemma_combined_take_bounds(fee_payer, packs, max_size);
        let taken = combined_take(fee_payer, packs, max_size);
        let rest = packs.skip(taken as int);
        let others = combined_groups(fee_payer, rest, max_size);
        lemma_combined_groups_keep_everything(fee_payer, rest, max_size);
        lemma_concat_packs_first(concat_packs(packs, taken), others, others.len());
        lemma_concat_packs_split(packs, taken, packs.len());
    }
}

/// Without a size budget, the combined transaction takes every pack, where all
/// packs together can be encoded.
pub proof fn lemma_unlimited_combines_all(fee_payer: Pubkey, packs: Seq<PackView>)
    requires
        packs.len() > 0,
        encodable(fee_payer, pack_instructions(concat_packs(packs, packs.len()))),
    ensures
        combined_take(fee_payer, packs, 0) == packs.len(),
        combined_groups(fee_payer, packs, 0) == seq![concat_packs(packs, packs.len())],
{
    let taken = combined_take(fee_payer, packs, 0);
    assert(packs.skip(taken as int).len() == 0);
    assert(combined_groups(fee_payer, packs.skip(taken as int), 0) =~= Seq::<PackView>::empty());
    assert(combined_groups(fee_payer, packs, 0) =~= seq![concat_packs(packs, packs.len())]);
}

/// Whether the instructions, paid by `fee_payer`, can stand in one transaction of
/// a builder with the budget `max_size`. The size is measured only where a budget
/// is set.
pub fn fits_budget(fee_payer: &Pubkey, instructions: &Vec<Instruction>, max_size: usize) -> (within: bool)
    ensures
        within == fits(*fee_payer, instruction_views(instructions@), max_size),
{
    if !is_encodable(fee_payer, instructions) {
        return false;
    }
    if max_size == 0 {
        return true;
    }
    match serialize_unsigned(fee_payer, instructions) {
        Some(bytes) => bytes.len() <= max_size,
        None => false,
    }
}

/// A copy of a pack.
pub(crate) fn copy_pack(pack: &Vec<DescribedInstruction>) -> (copy: Vec<DescribedInstruction>)
    ensures
        pack_view(copy@) == pack_view(pack@),
{
    let mut copy: Vec<DescribedInstruction> = Vec::new();
    let mut i: usize = 0;
    while i < pack.len()
        invariant
            i <= pack.len(),
            copy@.len() == i,
            forall|j: int| 0 <= j < i ==> (#[trigger] copy@[j])@ == pack@[j]@,
        decreases pack.len() - i,
    {
        copy.push(pack[i].clone());
        i += 1;
    }
    assert(pack_view(copy@) =~= pack_view(pack@));
    copy
}

/// Appends copies of the instructions of `pack` to `instructions`.
pub fn append_instructions(instructions: &mut Vec<Instruction>, pack: &Vec<DescribedInstruction>)
    ensures
        instruction_views(final(instructions)@) == instruction_views(old(instructions)@)
            + pack_instructions(pack_view(pack@)),
{
    let ghost target = instruction_views(old(instructions)@) + pack_instructions(pack_view(pack@));
    let mut i: usize = 0;
    while i < pack.len()
        invariant
            i <= pack.len(),
            target == instruction_views(old(instructions)@) + pack_instructions(pack_view(pack@)),
            instruction_views(instructions@) == target.subrange(0, old(instructions)@.len() + i),
        decreases pack.len() - i,
    {
        let ghost before = instruction_views(instructions@);
        instructions.push(pack[i].instruction.clone());
        assert(instruction_views(instructions@) =~= before.push(pack@[i as int].instruction@));
        assert(instruction_views(instructions@) =~= target.subrange(
            0,
            old(instructions)@.len() + i + 1,
        ));
        i += 1;
    }
    assert(target.subrange(0, target.len() as int) =~= target);
}

/// Appends copies of the descriptions of `pack` to `descriptions`.
pub fn append_descriptions(descriptions: &mut Vec<Option<String>>, pack: &Vec<DescribedInstruction>)
    ensures
        description_texts(final(descriptions)@) == description_texts(old(descriptions)@)
            + pack_descriptions(pack_view(pack@)),
{
    let ghost target = description_texts(old(descriptions)@) + pack_descriptions(pack_view(pack@));
    let mut i: usize = 0;
    while i < pack.len()
        invariant
            i <= pack.len(),
            target == description_texts(old(descriptions)@) + pack_descriptions(pack_view(pack@)),
            description_texts(descriptions@) == target.subrange(0, old(descriptions)@.len() + i),
        decreases pack.len() - i,
    {
        let ghost before = description_texts(descriptions@);
        let copy = match &pack[i].description {
            Some(text) => Some(text.clone()),
            None => None,
        };
        descriptions.push(copy);
        assert(description_texts(descriptions@) =~= before.push(pack@[i as int]@.description));
        assert(description_texts(descriptions@) =~= target.subrange(
            0,
            old(descriptions)@.len() + i + 1,
        ));
        i += 1;
    }
    assert(target.subrange(0, target.len() as int) =~= target);
}

/// The texts of a list of optional descriptions.
pub open spec fn description_texts(descriptions: Seq<Option<String>>) -> Seq<Option<Seq<char>>> {
    Seq::new(
        descriptions.len(),
        |i: int|
            match descriptions[i] {
                Some(text) => Some(text@),
                None => None,
            },
    )
}

} // verus!
