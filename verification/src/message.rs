//! The limits of the legacy message format, and the account keys that a list of
//! instructions refers to.

use vstd::prelude::*;
use crate::instruction::{instruction_views, AccountMeta, Instruction, InstructionView};
use crate::pubkey::Pubkey;

verus! {

/// The most that one of the three counts of a message header can say: required
/// signatures, read-only signed accounts and read-only unsigned accounts are each
/// counted in a single byte. Writable accounts that do not sign enter no count.
pub const MAX_HEADER_COUNT: usize = 255;

/// The longest list that the compact length prefix of the wire format can announce.
pub const MAX_COMPACT_LEN: usize = 65535;

/// Whether `key` is the fee payer, a program or an account of these instructions.
pub open spec fn mentions_key(fee_payer: Pubkey, instructions: Seq<InstructionView>, key: Pubkey) -> bool {
    ||| key == fee_payer
    ||| exists|i: int| 0 <= i < instructions.len() && #[trigger] instructions[i].program_id == key
    ||| exists|i: int, j: int|
        0 <= i < instructions.len() && 0 <= j < instructions[i].accounts.len() && (
        #[trigger] instructions[i].accounts[j]).pubkey == key
}

/// Whether some account of the instructions has this key and must sign.
pub open spec fn declares_signer(instructions: Seq<InstructionView>, key: Pubkey) -> bool {
    exists|i: int, j: int|
        0 <= i < instructions.len() && 0 <= j < instructions[i].accounts.len()
            && (#[trigger] instructions[i].accounts[j]).is_signer
            && instructions[i].accounts[j].pubkey == key
}

/// Whether some account of the instructions has this key and may be written.
pub open spec fn declares_writable(instructions: Seq<InstructionView>, key: Pubkey) -> bool {
    exists|i: int, j: int|
        0 <= i < instructions.len() && 0 <= j < instructions[i].accounts.len()
            && (#[trigger] instructions[i].accounts[j]).is_writable
            && instructions[i].accounts[j].pubkey == key
}

/// Whether `key` has to sign the transaction: the fee payer does, and so does every
/// key that some account reference marks as a signer.
pub open spec fn requires_signature(fee_payer: Pubkey, instructions: Seq<InstructionView>, key: Pubkey) -> bool {
    key == fee_payer || declares_signer(instructions, key)
}

/// Whether the transaction may write to `key`: to the fee payer it may, and to
/// every key that some account reference marks as writable.
pub open spec fn writable_key(fee_payer: Pubkey, instructions: Seq<InstructionView>, key: Pubkey) -> bool {
    key == fee_payer || declares_writable(instructions, key)
}

/// The keys that a transaction of these instructions, paid by `fee_payer`,
/// mentions: each of them gets one place among the account keys of the message.
pub open spec fn mentioned_keys(fee_payer: Pubkey, instructions: Seq<InstructionView>) -> Set<Pubkey> {
    Set::new(|key: Pubkey| mentions_key(fee_payer, instructions, key))
}

/// The keys that have to sign.
pub open spec fn required_signers(fee_payer: Pubkey, instructions: Seq<InstructionView>) -> Set<Pubkey> {
    Set::new(|key: Pubkey| requires_signature(fee_payer, instructions, key))
}

/// The keys that have to sign and are written by nothing.
pub open spec fn readonly_signers(fee_payer: Pubkey, instructions: Seq<InstructionView>) -> Set<Pubkey> {
    Set::new(
        |key: Pubkey|
            requires_signature(fee_payer, instructions, key) && !writable_key(
                fee_payer,
                instructions,
                key,
            ),
    )
}

/// The keys that are mentioned, do not sign and are written by nothing.
pub open spec fn readonly_unsigned(fee_payer: Pubkey, instructions: Seq<InstructionView>) -> Set<Pubkey> {
    Set::new(
        |key: Pubkey|
            mentions_key(fee_payer, instructions, key) && !requires_signature(
                fee_payer,
                instructions,
                key,
            ) && !writable_key(fee_payer, instructions, key),
    )
}

/// Whether `keys` is a finite set that a count of the header can say.
pub open spec fn countable(keys: Set<Pubkey>) -> bool {
    keys.finite() && keys.len() <= MAX_HEADER_COUNT
}

/// Whether a message can be compiled: its header can say each of its three counts.
pub open spec fn compilable(fee_payer: Pubkey, instructions: Seq<InstructionView>) -> bool {
    &&& countable(required_signers(fee_payer, instructions))
    &&& countable(readonly_signers(fee_payer, instructions))
    &&& countable(readonly_unsigned(fee_payer, instructions))
}

/// Whether every list of the message has a length that its prefix can announce:
/// the account keys, the instructions, and the accounts and the data of each
/// instruction.
pub open spec fn lengths_encodable(fee_payer: Pubkey, instructions: Seq<InstructionView>) -> bool {
    &&& mentioned_keys(fee_payer, instructions).finite()
    &&& mentioned_keys(fee_payer, instructions).len() <= MAX_COMPACT_LEN
    &&& instructions.len() <= MAX_COMPACT_LEN
    &&& forall|i: int|
        0 <= i < instructions.len() ==> (#[trigger] instructions[i]).accounts.len()
            <= MAX_COMPACT_LEN && instructions[i].data.len() <= MAX_COMPACT_LEN
}

/// Whether the instructions, paid by `fee_payer`, make a transaction that the legacy
/// wire format can hold.
pub open spec fn encodable(fee_payer: Pubkey, instructions: Seq<InstructionView>) -> bool {
    compilable(fee_payer, instructions) && lengths_encodable(fee_payer, instructions)
}

/// A choice of keys: all that are mentioned, those that have to sign, or those that
/// some account reference marks as a signer or as writable.
#[derive(Clone, Copy, Debug)]
enum KeyClass {
    Mentioned,
    Signing,
    Marked,
}

/// Whether the programs of the instructions are among the keys of the class.
spec fn lists_programs(class: KeyClass) -> bool {
    class is Mentioned
}

/// Whether the key of this account reference is among the keys of the class.
spec fn lists_account(class: KeyClass, account: AccountMeta) -> bool {
    match class {
        KeyClass::Mentioned => true,
        KeyClass::Signing => account.is_signer,
        KeyClass::Marked => account.is_signer || account.is_writable,
    }
}

/// Whether `key` is of the class: the fee payer is of every class.
spec fn in_class(class: KeyClass, fee_payer: Pubkey, instructions: Seq<InstructionView>, key: Pubkey) -> bool {
    ||| key == fee_payer
    ||| lists_programs(class) && exists|i: int|
        0 <= i < instructions.len() && #[trigger] instructions[i].program_id == key
    ||| exists|i: int, j: int|
        0 <= i < instructions.len() && 0 <= j < instructions[i].accounts.len() && (
        #[trigger] instructions[i].accounts[j]).pubkey == key && lists_account(
            class,
            instructions[i].accounts[j],
        )
}

/// The keys of the class.
spec fn class_keys(class: KeyClass, fee_payer: Pubkey, instructions: Seq<InstructionView>) -> Set<Pubkey> {
    Set::new(|key: Pubkey| in_class(class, fee_payer, instructions, key))
}

/// `base`, followed by those keys of the first `n` of `accounts` that are of the
/// class.
spec fn with_account_keys(class: KeyClass, base: Seq<Pubkey>, accounts: Seq<AccountMeta>, n: nat) -> Seq<
    Pubkey,
>
    decreases n,
{
    if n == 0 {
        base
    } else {
        let before = with_account_keys(class, base, accounts, (n - 1) as nat);
        if lists_account(class, accounts[n - 1]) {
            before.push(accounts[n - 1].pubkey)
        } else {
            before
        }
    }
}

/// `base`, followed by the program of the instruction where the class lists programs.
spec fn with_program(class: KeyClass, base: Seq<Pubkey>, instruction: InstructionView) -> Seq<Pubkey> {
    if lists_programs(class) {
        base.push(instruction.program_id)
    } else {
        base
    }
}

/// The fee payer, then for each of the first `n` instructions those of its program
/// and its accounts that are of the class, in order and with repetitions.
spec fn keys_of_prefix(class: KeyClass, fee_payer: Pubkey, instructions: Seq<InstructionView>, n: nat) -> Seq<
    Pubkey,
>
    decreases n,
{
    if n == 0 {
        seq![fee_payer]
    } else {
        let instruction = instructions[n - 1];
        with_account_keys(
            class,
            with_program(
                class,
                keys_of_prefix(class, fee_payer, instructions, (n - 1) as nat),
                instruction,
            ),
            instruction.accounts,
            instruction.accounts.len(),
        )
    }
}

/// The keys collected from the accounts so far are exactly those of the class.
proof fn lemma_with_account_keys(class: KeyClass, base: Seq<Pubkey>, accounts: Seq<AccountMeta>, n: nat, key: Pubkey)
    requires
        n <= accounts.len(),
    ensures
        with_account_keys(class, base, accounts, n).contains(key) <==> base.contains(key)
            || exists|j: int|
            0 <= j < n && (#[trigger] accounts[j]).pubkey == key && lists_account(class, accounts[j]),
    decreases n,
{
    broadcast use vstd::seq_lib::lemma_seq_contains_after_push;

    if n > 0 {
        lemma_with_account_keys(class, base, accounts, (n - 1) as nat, key);
        let last = accounts[n - 1];
        if last.pubkey == key && lists_account(class, last) {
            assert(with_account_keys(class, base, accounts, n).contains(key));
        }
    }
}

proof fn lemma_keys_of_prefix(class: KeyClass, fee_payer: Pubkey, instructions: Seq<InstructionView>, n: nat, key: Pubkey)
    requires
        n <= instructions.len(),
    ensures
        keys_of_prefix(class, fee_payer, instructions, n).contains(key) <==> in_class(
            class,
            fee_payer,
            instructions.take(n as int),
            key,
        ),
    decreases n,
{
    broadcast use vstd::seq_lib::lemma_seq_contains_after_push;

    let taken = instructions.take(n as int);
    if n == 0 {
        assert(seq![fee_payer][0] == fee_payer);
        assert(seq![fee_payer].contains(key) <==> key == fee_payer);
    } else {
        let shorter = instructions.take(n - 1);
        let last = instructions[n - 1];
        let before = keys_of_prefix(class, fee_payer, instructions, (n - 1) as nat);
        lemma_keys_of_prefix(class, fee_payer, instructions, (n - 1) as nat, key);
        lemma_with_account_keys(
            class,
            with_program(class, before, last),
            last.accounts,
            last.accounts.len(),
            key,
        );
        assert(forall|i: int| 0 <= i < n - 1 ==> shorter[i] == taken[i]);
        assert(taken[n - 1] == last);
        if in_class(class, fee_payer, shorter, key) {
            if key != fee_payer {
                if lists_programs(class) && exists|i: int|
                    0 <= i < shorter.len() && #[trigger] shorter[i].program_id == key {
                    let i = choose|i: int| 0 <= i < shorter.len() && #[trigger] shorter[i].program_id == key;
                    assert(taken[i].program_id == key);
                } else {
                    let (i, j) = choose|i: int, j: int|
                        0 <= i < shorter.len() && 0 <= j < shorter[i].accounts.len() && (
                        #[trigger] shorter[i].accounts[j]).pubkey == key && lists_account(
                            class,
                            shorter[i].accounts[j],
                        );
                    assert(taken[i].accounts[j].pubkey == key);
                }
            }
            assert(in_class(class, fee_payer, taken, key));
        }
        if lists_programs(class) && last.program_id == key {
            assert(taken[n - 1].program_id == key);
        }
        if exists|j: int|
            0 <= j < last.accounts.len() && (#[trigger] last.accounts[j]).pubkey == key
                && lists_account(class, last.accounts[j]) {
            let j = choose|j: int|
                0 <= j < last.accounts.len() && (#[trigger] last.accounts[j]).pubkey == key
                    && lists_account(class, last.accounts[j]);
            assert(taken[n - 1].accounts[j].pubkey == key);
        }
        if in_class(class, fee_payer, taken, key) && !in_class(class, fee_payer, shorter, key) {
            if lists_programs(class) && exists|i: int|
                0 <= i < taken.len() && #[trigger] taken[i].program_id == key {
                let i = choose|i: int| 0 <= i < taken.len() && #[trigger] taken[i].program_id == key;
                if i < n - 1 {
                    assert(shorter[i].program_id == key);
                }
            } else {
                let (i, j) = choose|i: int, j: int|
                    0 <= i < taken.len() && 0 <= j < taken[i].accounts.len() && (
                    #[trigger] taken[i].accounts[j]).pubkey == key && lists_account(
                        class,
                        taken[i].accounts[j],
                    );
                if i < n - 1 {
                    assert(shorter[i].accounts[j].pubkey == key);
                } else {
                    assert(last.accounts[j].pubkey == key);
                }
            }
        }
    }
}

/// The keys in the list of a class are the keys of the class.
proof fn lemma_listed_keys(class: KeyClass, fee_payer: Pubkey, instructions: Seq<InstructionView>)
    ensures
        keys_of_prefix(class, fee_payer, instructions, instructions.len()).to_set() == class_keys(
            class,
            fee_payer,
            instructions,
        ),
{
    let listed = keys_of_prefix(class, fee_payer, instructions, instructions.len());
    assert forall|key: Pubkey|
        listed.to_set().contains(key) == class_keys(class, fee_payer, instructions).contains(
            key,
        ) by {
        lemma_keys_of_prefix(class, fee_payer, instructions, instructions.len(), key);
        assert(instructions.take(instructions.len() as int) =~= instructions);
    }
    assert(listed.to_set() =~= class_keys(class, fee_payer, instructions));
}

/// What the three classes are in terms of the roles of the keys.
proof fn lemma_classes(fee_payer: Pubkey, instructions: Seq<InstructionView>)
    ensures
        class_keys(KeyClass::Mentioned, fee_payer, instructions) == mentioned_keys(
            fee_payer,
            instructions,
        ),
        class_keys(KeyClass::Signing, fee_payer, instructions) == required_signers(
            fee_payer,
            instructions,
        ),
        class_keys(KeyClass::Marked, fee_payer, instructions).subset_of(
            mentioned_keys(fee_payer, instructions),
        ),
        readonly_unsigned(fee_payer, instructions) == mentioned_keys(
            fee_payer,
            instructions,
        ).difference(class_keys(KeyClass::Marked, fee_payer, instructions)),
        readonly_signers(fee_payer, instructions).subset_of(
            required_signers(fee_payer, instructions),
        ),
{
    let mentioned = class_keys(KeyClass::Mentioned, fee_payer, instructions);
    let signing = class_keys(KeyClass::Signing, fee_payer, instructions);
    let marked = class_keys(KeyClass::Marked, fee_payer, instructions);
    assert forall|key: Pubkey| mentioned.contains(key) == mentions_key(
        fee_payer,
        instructions,
        key,
    ) by {}
    assert(mentioned =~= mentioned_keys(fee_payer, instructions));
    assert forall|key: Pubkey| signing.contains(key) == requires_signature(
        fee_payer,
        instructions,
        key,
    ) by {
        if declares_signer(instructions, key) {
            let (i, j) = choose|i: int, j: int|
                0 <= i < instructions.len() && 0 <= j < instructions[i].accounts.len()
                    && (#[trigger] instructions[i].accounts[j]).is_signer
                    && instructions[i].accounts[j].pubkey == key;
            assert(lists_account(KeyClass::Signing, instructions[i].accounts[j]));
        }
    }
    assert(signing =~= required_signers(fee_payer, instructions));
    assert forall|key: Pubkey| marked.contains(key) == (requires_signature(
        fee_payer,
        instructions,
        key,
    ) || writable_key(fee_payer, instructions, key)) by {
        if declares_signer(instructions, key) {
            let (i, j) = choose|i: int, j: int|
                0 <= i < instructions.len() && 0 <= j < instructions[i].accounts.len()
                    && (#[trigger] instructions[i].accounts[j]).is_signer
                    && instructions[i].accounts[j].pubkey == key;
            assert(lists_account(KeyClass::Marked, instructions[i].accounts[j]));
        }
        if declares_writable(instructions, key) {
            let (i, j) = choose|i: int, j: int|
                0 <= i < instructions.len() && 0 <= j < instructions[i].accounts.len()
                    && (#[trigger] instructions[i].accounts[j]).is_writable
                    && instructions[i].accounts[j].pubkey == key;
            assert(lists_account(KeyClass::Marked, instructions[i].accounts[j]));
        }
        if marked.contains(key) && key != fee_payer {
            let (i, j) = choose|i: int, j: int|
                0 <= i < instructions.len() && 0 <= j < instructions[i].accounts.len() && (
                #[trigger] instructions[i].accounts[j]).pubkey == key && lists_account(
                    KeyClass::Marked,
                    instructions[i].accounts[j],
                );
            if instructions[i].accounts[j].is_signer {
                assert(declares_signer(instructions, key));
            } else {
                assert(declares_writable(instructions, key));
            }
        }
    }
    assert forall|key: Pubkey| marked.contains(key) implies mentioned_keys(
        fee_payer,
        instructions,
    ).contains(key) by {
        if key != fee_payer {
            let (i, j) = choose|i: int, j: int|
                0 <= i < instructions.len() && 0 <= j < instructions[i].accounts.len() && (
                #[trigger] instructions[i].accounts[j]).pubkey == key && lists_account(
                    KeyClass::Marked,
                    instructions[i].accounts[j],
                );
        }
    }
    assert(readonly_unsigned(fee_payer, instructions) =~= mentioned_keys(
        fee_payer,
        instructions,
    ).difference(marked));
}

/// Adds `key` to `seen` unless it is there already.
fn note_key(seen: &mut Vec<Pubkey>, key: Pubkey)
    requires
        old(seen)@.no_duplicates(),
    ensures
        final(seen)@.no_duplicates(),
        final(seen)@.to_set() == old(seen)@.to_set().insert(key),
{
    let mut i: usize = 0;
    while i < seen.len()
        invariant
            i <= seen.len(),
            seen@ == old(seen)@,
            seen@.no_duplicates(),
            forall|j: int| 0 <= j < i ==> seen@[j] != key,
        decreases seen.len() - i,
    {
        if seen[i].same_key(&key) {
            proof {
                assert(seen@.contains(key));
                assert(seen@.to_set().insert(key) =~= seen@.to_set());
            }
            return ;
        }
        i += 1;
    }
    proof {
        seen@.lemma_push_to_set_commute(key);
    }
    seen.push(key);
}

/// Whether the key of this account reference is among the keys of the class.
fn account_listed(class: KeyClass, account: &AccountMeta) -> (listed: bool)
    ensures
        listed == lists_account(class, *account),
{
    match class {
        KeyClass::Mentioned => true,
        KeyClass::Signing => account.is_signer,
        KeyClass::Marked => account.is_signer || account.is_writable,
    }
}

/// How many different keys are of the class.
fn count_keys(class: KeyClass, fee_payer: &Pubkey, instructions: &Vec<Instruction>) -> (count: usize)
    ensures
        class_keys(class, *fee_payer, instruction_views(instructions@)).finite(),
        count == class_keys(class, *fee_payer, instruction_views(instructions@)).len(),
{
    let ghost views = instruction_views(instructions@);
    let mut seen: Vec<Pubkey> = Vec::new();
    seen.push(*fee_payer);
    assert(seen@ =~= seq![*fee_payer]);
    let mut i: usize = 0;
    while i < instructions.len()
        invariant
            i <= instructions.len(),
            views == instruction_views(instructions@),
            seen@.no_duplicates(),
            seen@.to_set() == keys_of_prefix(class, *fee_payer, views, i as nat).to_set(),
        decreases instructions.len() - i,
    {
        let instruction = &instructions[i];
        let ghost before = keys_of_prefix(class, *fee_payer, views, i as nat);
        let ghost base = with_program(class, before, instruction@);
        match class {
            KeyClass::Mentioned => {
                proof {
                    before.lemma_push_to_set_commute(instruction.program_id);
                }
                note_key(&mut seen, instruction.program_id);
            },
            _ => {},
        }
        let mut j: usize = 0;
        while j < instruction.accounts.len()
            invariant
                j <= instruction.accounts.len(),
                seen@.no_duplicates(),
                seen@.to_set() == with_account_keys(
                    class,
                    base,
                    instruction.accounts@,
                    j as nat,
                ).to_set(),
            decreases instruction.accounts.len() - j,
        {
            if account_listed(class, &instruction.accounts[j]) {
                proof {
                    with_account_keys(
                        class,
                        base,
                        instruction.accounts@,
                        j as nat,
                    ).lemma_push_to_set_commute(instruction.accounts@[j as int].pubkey);
                }
                note_key(&mut seen, instruction.accounts[j].pubkey);
            }
            j += 1;
        }
        assert(views[i as int] == instruction@);
        i += 1;
    }
    proof {
        seen@.unique_seq_to_set();
        lemma_listed_keys(class, *fee_payer, views);
        vstd::seq_lib::seq_to_set_is_finite(seen@);
    }
    seen.len()
}

/// How many different keys are mentioned, how many of them have to sign, and how
/// many are read-only and do not sign.
fn key_counts(fee_payer: &Pubkey, instructions: &Vec<Instruction>) -> (counts: (usize, usize, usize))
    ensures
        ({
            let views = instruction_views(instructions@);
            &&& mentioned_keys(*fee_payer, views).finite()
            &&& required_signers(*fee_payer, views).finite()
            &&& readonly_signers(*fee_payer, views).finite()
            &&& readonly_unsigned(*fee_payer, views).finite()
            &&& counts.0 == mentioned_keys(*fee_payer, views).len()
            &&& counts.1 == required_signers(*fee_payer, views).len()
            &&& counts.2 == readonly_unsigned(*fee_payer, views).len()
            &&& readonly_signers(*fee_payer, views).len() <= counts.1
        }),
{
    let ghost views = instruction_views(instructions@);
    let mentioned = count_keys(KeyClass::Mentioned, fee_payer, instructions);
    let signing = count_keys(KeyClass::Signing, fee_payer, instructions);
    let marked = count_keys(KeyClass::Marked, fee_payer, instructions);
    proof {
        lemma_classes(*fee_payer, views);
        let all = mentioned_keys(*fee_payer, views);
        let some = class_keys(KeyClass::Marked, *fee_payer, views);
        vstd::set_lib::lemma_len_subset(some, all);
        vstd::set_lib::lemma_set_difference_len(all, some);
        assert(all.intersect(some) =~= some);
        vstd::set_lib::lemma_len_subset(all.difference(some), all);
        vstd::set_lib::lemma_len_subset(
            readonly_signers(*fee_payer, views),
            required_signers(*fee_payer, views),
        );
    }
    (mentioned, signing, mentioned - marked)
}

/// Whether the header of the message of these instructions, paid by `fee_payer`,
/// can say its counts.
pub fn within_key_limit(fee_payer: &Pubkey, instructions: &Vec<Instruction>) -> (within: bool)
    ensures
        within == compilable(*fee_payer, instruction_views(instructions@)),
{
    let (_, signing, readonly) = key_counts(fee_payer, instructions);
    signing <= MAX_HEADER_COUNT && readonly <= MAX_HEADER_COUNT
}

/// Whether every list of these instructions, the list of their keys among them, is
/// short enough for its length prefix.
pub fn within_length_limits(fee_payer: &Pubkey, instructions: &Vec<Instruction>) -> (within: bool)
    ensures
        within == lengths_encodable(*fee_payer, instruction_views(instructions@)),
{
    let (mentioned, _, _) = key_counts(fee_payer, instructions);
    mentioned <= MAX_COMPACT_LEN && lists_within_limits(instructions)
}

/// Whether the instructions, and the accounts and the data of each, are few enough
/// for their length prefixes.
fn lists_within_limits(instructions: &Vec<Instruction>) -> (within: bool)
    ensures
        within == (instructions@.len() <= MAX_COMPACT_LEN && forall|i: int|
            0 <= i < instructions@.len() ==> (#[trigger] instruction_views(
                instructions@,
            )[i]).accounts.len() <= MAX_COMPACT_LEN && instruction_views(
                instructions@,
            )[i].data.len() <= MAX_COMPACT_LEN),
{
    let ghost views = instruction_views(instructions@);
    if instructions.len() > MAX_COMPACT_LEN {
        return false;
    }
    let mut i: usize = 0;
    while i < instructions.len()
        invariant
            i <= instructions.len(),
            views == instruction_views(instructions@),
            forall|k: int|
                0 <= k < i ==> (#[trigger] views[k]).accounts.len() <= MAX_COMPACT_LEN
                    && views[k].data.len() <= MAX_COMPACT_LEN,
        decreases instructions.len() - i,
    {
        if instructions[i].accounts.len() > MAX_COMPACT_LEN || instructions[i].data.len()
            > MAX_COMPACT_LEN {
            assert(views[i as int] == instructions@[i as int]@);
            return false;
        }
        assert(views[i as int] == instructions@[i as int]@);
        i += 1;
    }
    true
}

/// Whether the instructions, paid by `fee_payer`, make a transaction that the legacy
/// wire format can hold.
pub fn is_encodable(fee_payer: &Pubkey, instructions: &Vec<Instruction>) -> (yes: bool)
    ensures
        yes == encodable(*fee_payer, instruction_views(instructions@)),
{
    let (mentioned, signing, readonly) = key_counts(fee_payer, instructions);
    signing <= MAX_HEADER_COUNT && readonly <= MAX_HEADER_COUNT && mentioned <= MAX_COMPACT_LEN
        && lists_within_limits(instructions)
}

/// A transaction without instructions mentions the fee payer alone, who signs and
/// is written to, so it can be encoded.
pub proof fn lemma_empty_encodable(fee_payer: Pubkey)
    ensures
        encodable(fee_payer, Seq::<InstructionView>::empty()),
{
    let none = Seq::<InstructionView>::empty();
    let payer = Set::<Pubkey>::empty().insert(fee_payer);
    assert(mentioned_keys(fee_payer, none) =~= payer);
    assert(required_signers(fee_payer, none) =~= payer);
    assert(readonly_signers(fee_payer, none) =~= Set::<Pubkey>::empty());
    assert(readonly_unsigned(fee_payer, none) =~= Set::<Pubkey>::empty());
}

} // verus!
