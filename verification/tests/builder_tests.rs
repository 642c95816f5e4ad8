use solana_sdk::signature::Keypair;
use solana_sdk::signer::Signer;
use solana_transaction_builder::{
    AccountMeta, Instruction, PreparedTransaction, Pubkey, SignedTransaction,
    TransactionBuildError, TransactionBuilder, UnsignedTransaction,
};
use std::sync::Arc;

fn key_of(keypair: &Keypair) -> Pubkey {
    Pubkey::new_from_array(keypair.pubkey().to_bytes())
}

fn numbered_key(n: u16) -> Pubkey {
    let mut bytes = [7u8; 32];
    bytes[0] = (n % 256) as u8;
    bytes[1] = (n / 256) as u8;
    Pubkey::new_from_array(bytes)
}

fn sdk_instruction(instruction: &Instruction) -> solana_sdk::instruction::Instruction {
    solana_sdk::instruction::Instruction {
        program_id: solana_sdk::pubkey::Pubkey::new_from_array(instruction.program_id.to_bytes()),
        accounts: instruction
            .accounts
            .iter()
            .map(|account| solana_sdk::instruction::AccountMeta {
                pubkey: solana_sdk::pubkey::Pubkey::new_from_array(account.pubkey.to_bytes()),
                is_signer: account.is_signer,
                is_writable: account.is_writable,
            })
            .collect(),
        data: instruction.data.clone(),
    }
}

fn sdk_transaction(payer: &Pubkey, instructions: &[Instruction]) -> solana_sdk::transaction::Transaction {
    let list: Vec<solana_sdk::instruction::Instruction> =
        instructions.iter().map(sdk_instruction).collect();
    let payer = solana_sdk::pubkey::Pubkey::new_from_array(payer.to_bytes());
    solana_sdk::transaction::Transaction::new_with_payer(&list, Some(&payer))
}

fn transfer(from: Pubkey, to: Pubkey, lamports: u64) -> Instruction {
    let mut data = vec![2u8, 0, 0, 0];
    data.extend_from_slice(&lamports.to_le_bytes());
    Instruction {
        program_id: Pubkey::new_from_array([0u8; 32]),
        accounts: vec![AccountMeta::new(from, true), AccountMeta::new(to, false)],
        data,
    }
}

fn heavy(payer: Pubkey, size: usize) -> Instruction {
    Instruction {
        program_id: numbered_key(9000),
        accounts: vec![AccountMeta::new(payer, true)],
        data: vec![1u8; size],
    }
}

fn signed_size(prepared: &PreparedTransaction) -> usize {
    let signed = prepared
        .signed_transaction(solana_sdk::hash::Hash::new_unique())
        .expect("every signer is held");
    assert!(signed.is_signed());
    assert!(signed.verify().is_ok());
    bincode::serialize(&signed).unwrap().len()
}

fn drain(builder: &mut TransactionBuilder) -> Vec<PreparedTransaction> {
    let mut all = Vec::new();
    let mut sequence = builder.sequence();
    while let Some(prepared) = sequence.next() {
        all.push(prepared);
    }
    all
}

fn drain_combined(builder: &mut TransactionBuilder) -> Vec<PreparedTransaction> {
    let mut all = Vec::new();
    let mut sequence = builder.sequence_combined();
    while let Some(prepared) = sequence.next() {
        all.push(prepared);
    }
    all
}

fn takes_sync_send<T: Sync + Send>(_t: T) {}

#[test]
fn test_add_signer() {
    let signer1 = Arc::new(Keypair::new());
    let signer2 = Arc::new(Keypair::new());
    let mut tx_builder = TransactionBuilder::limited(Arc::new(Keypair::new()));
    tx_builder.add_signer_checked(&signer1);
    tx_builder.add_signer_checked(&signer2);
    tx_builder.add_signer_checked(&signer1);
    assert_eq!(tx_builder.signature_builder().signers().len(), 3); // fee payer + 2 signers

    tx_builder.add_signer(signer1.clone());
    assert_eq!(tx_builder.signature_builder().signers().len(), 3);

    let ix = Instruction {
        program_id: Pubkey::new_from_array([0u8; 32]),
        accounts: vec![
            AccountMeta {
                is_signer: true,
                is_writable: false,
                pubkey: key_of(&signer2),
            },
            AccountMeta {
                is_signer: true,
                is_writable: false,
                pubkey: key_of(&signer1),
            },
            AccountMeta {
                is_signer: true,
                is_writable: false,
                pubkey: tx_builder.fee_payer(),
            },
        ],
        data: vec![],
    };
    assert!(tx_builder.check_signers(&ix).is_ok());
}

#[test]
fn is_sync_send_able() {
    let keypair = Arc::new(Keypair::new());
    let tx_builder = TransactionBuilder::limited(keypair.clone());

    assert_eq!(tx_builder.signature_builder().signers().len(), 1_usize);
    assert!(tx_builder.signature_builder().contains_key(&key_of(&keypair)));

    takes_sync_send(tx_builder.signature_builder().clone());
}

#[test]
fn constructors_set_the_budget() {
    let payer = Arc::new(Keypair::new());
    let limited = TransactionBuilder::limited(payer.clone());
    assert_eq!(limited.max_transaction_size(), 1232);
    assert_eq!(limited.max_transaction_size(), solana_sdk::packet::PACKET_DATA_SIZE);
    assert_eq!(limited.fee_payer(), key_of(&payer));
    let unlimited = TransactionBuilder::unlimited(payer.clone());
    assert_eq!(unlimited.max_transaction_size(), 0);
    let custom = TransactionBuilder::new(payer.clone(), 500);
    assert_eq!(custom.max_transaction_size(), 500);
    assert!(custom.is_empty());
    assert_eq!(custom.fee_payer_signer().pubkey(), payer.pubkey());
    assert_eq!(custom.get_signer(&key_of(&payer)).unwrap().pubkey(), payer.pubkey());
    assert!(custom.get_signer(&numbered_key(1)).is_none());
}

#[test]
fn single_small_transfer() {
    let payer = Arc::new(Keypair::new());
    let mut builder = TransactionBuilder::limited(payer.clone());
    builder
        .add_instruction(transfer(key_of(&payer), numbered_key(1), 1_000))
        .unwrap();
    let emitted = drain(&mut builder);
    assert_eq!(emitted.len(), 1);
    assert_eq!(emitted[0].signers.len(), 1);
    assert_eq!(emitted[0].signers[0].pubkey(), payer.pubkey());
    assert_eq!(emitted[0].transaction.instructions().len(), 1);
    assert!(signed_size(&emitted[0]) <= 1232);
    assert!(builder.is_empty());
}

#[test]
fn size_forced_pack_split() {
    let payer = Arc::new(Keypair::new());
    let mut builder = TransactionBuilder::limited(payer.clone());
    let mut refused = 0;
    let mut admitted = 0;
    for _ in 0..20 {
        match builder.add_instruction(heavy(key_of(&payer), 100)) {
            Ok(()) => admitted += 1,
            Err(reason) => {
                assert_eq!(reason, TransactionBuildError::TooBigTransaction);
                refused += 1;
                let waiting = builder.instructions().len();
                builder.finish_instruction_pack();
                assert_eq!(builder.instructions().len(), waiting);
                builder
                    .add_instruction(heavy(key_of(&payer), 100))
                    .expect("a fresh pack takes the instruction");
                admitted += 1;
            }
        }
    }
    assert!(refused >= 1);
    assert_eq!(admitted, 20);
    let emitted = drain(&mut builder);
    assert!(emitted.len() >= 2);
    assert_eq!(emitted.len(), refused + 1);
    let mut instructions = 0;
    for prepared in &emitted {
        assert!(signed_size(prepared) <= 1232);
        instructions += prepared.transaction.instructions().len();
    }
    assert_eq!(instructions, 20);
}

#[test]
fn first_refusal_comes_at_the_first_instruction_that_overflows() {
    let payer = Arc::new(Keypair::new());
    let key = key_of(&payer);
    let mut builder = TransactionBuilder::limited(payer.clone());
    let mut admitted: Vec<Instruction> = Vec::new();
    loop {
        let mut candidate = admitted.clone();
        candidate.push(heavy(key, 100));
        let size = bincode::serialize(&sdk_transaction(&key, &candidate)).unwrap().len();
        let added = builder.add_instruction(heavy(key, 100));
        if size <= 1232 {
            assert!(added.is_ok());
            admitted = candidate;
        } else {
            assert_eq!(added, Err(TransactionBuildError::TooBigTransaction));
            break;
        }
    }
    assert_eq!(admitted.len(), 10);
    assert_eq!(builder.instructions().len(), 10);
}

#[test]
fn greedy_combine_vs_one_per_pack() {
    let payer = Arc::new(Keypair::new());
    let key = key_of(&payer);
    let mut one_by_one = TransactionBuilder::unlimited(payer.clone());
    let mut combined = TransactionBuilder::unlimited(payer.clone());
    for n in 0..5u16 {
        one_by_one.add_instruction(transfer(key, numbered_key(n), 5)).unwrap();
        one_by_one.finish_instruction_pack();
        combined.add_instruction(transfer(key, numbered_key(n), 5)).unwrap();
        combined.finish_instruction_pack();
    }
    let singles = drain(&mut one_by_one);
    assert_eq!(singles.len(), 5);
    for (n, prepared) in singles.iter().enumerate() {
        assert_eq!(prepared.transaction.instructions().len(), 1);
        assert_eq!(
            prepared.transaction.instructions()[0].accounts[1].pubkey,
            numbered_key(n as u16)
        );
    }
    let merged = drain_combined(&mut combined);
    assert_eq!(merged.len(), 1);
    assert_eq!(merged[0].transaction.instructions().len(), 5);
    for n in 0..5u16 {
        assert_eq!(
            merged[0].transaction.instructions()[n as usize].accounts[1].pubkey,
            numbered_key(n)
        );
    }
    assert!(one_by_one.is_empty());
    assert!(combined.is_empty());
}

#[test]
fn unknown_signer_rejection() {
    let payer = Arc::new(Keypair::new());
    let stranger = Keypair::new();
    let mut builder = TransactionBuilder::limited(payer.clone());
    builder
        .add_instruction(transfer(key_of(&payer), numbered_key(1), 1))
        .unwrap();
    let before = builder.instructions().len();
    let refused = builder.add_instruction(transfer(key_of(&stranger), numbered_key(2), 1));
    assert_eq!(refused, Err(TransactionBuildError::UnknownSigner(key_of(&stranger))));
    assert_eq!(builder.instructions().len(), before);
    assert_eq!(builder.signature_builder().signers().len(), 1);
    assert_eq!(drain(&mut builder).len(), 1);
}

#[test]
fn the_first_unknown_signer_is_named() {
    let payer = Arc::new(Keypair::new());
    let builder = TransactionBuilder::limited(payer.clone());
    let instruction = Instruction {
        program_id: numbered_key(1),
        accounts: vec![
            AccountMeta::new_readonly(numbered_key(2), false),
            AccountMeta::new(key_of(&payer), true),
            AccountMeta::new_readonly(numbered_key(3), true),
            AccountMeta::new(numbered_key(4), true),
        ],
        data: vec![],
    };
    assert_eq!(
        builder.check_signers(&instruction),
        Err(TransactionBuildError::UnknownSigner(numbered_key(3)))
    );
}

#[test]
fn admitted_signers_are_always_held() {
    let payer = Arc::new(Keypair::new());
    let other = Arc::new(Keypair::new());
    let mut builder = TransactionBuilder::limited(payer.clone());
    assert!(builder
        .add_instruction(transfer(key_of(&other), numbered_key(1), 1))
        .is_err());
    assert_eq!(builder.add_signer(other.clone()), key_of(&other));
    builder
        .add_instruction(transfer(key_of(&other), numbered_key(1), 1))
        .unwrap();
    for instruction in builder.instructions() {
        for account in instruction.accounts {
            if account.is_signer {
                assert!(builder.signature_builder().contains_key(&account.pubkey));
            }
        }
    }
}

#[test]
fn emitted_transactions_have_all_their_signers() {
    let payer = Arc::new(Keypair::new());
    let second = Arc::new(Keypair::new());
    let third = Arc::new(Keypair::new());
    let mut builder = TransactionBuilder::limited(payer.clone());
    builder.add_signer(second.clone());
    builder.add_signer(third.clone());
    builder.add_instruction(transfer(key_of(&third), numbered_key(1), 1)).unwrap();
    builder.add_instruction(transfer(key_of(&second), numbered_key(2), 1)).unwrap();
    builder.finish_instruction_pack();
    builder.add_instruction(transfer(key_of(&payer), key_of(&second), 1)).unwrap();
    let emitted = drain(&mut builder);
    assert_eq!(emitted.len(), 2);
    for prepared in &emitted {
        let reference = sdk_transaction(&key_of(&payer), prepared.transaction.instructions());
        let required = reference.message.header.num_required_signatures as usize;
        assert_eq!(prepared.signers.len(), required);
        assert_eq!(prepared.transaction.signer_keys().len(), required);
        for (position, signer) in prepared.signers.iter().enumerate() {
            assert_eq!(signer.pubkey(), reference.message.account_keys[position]);
            assert_eq!(key_of(signer), prepared.transaction.signer_keys()[position]);
        }
        let found = builder
            .signature_builder()
            .signers_for_transaction(&prepared.transaction)
            .expect("no signer is missing");
        assert_eq!(found.len(), required);
        assert!(signed_size(prepared) <= 1232);
    }
    assert_eq!(emitted[0].signers.len(), 3);
    assert_eq!(emitted[0].signers[0].pubkey(), payer.pubkey());
    assert_eq!(emitted[1].signers.len(), 1);
}

#[test]
fn wire_size_is_that_of_the_sdk() {
    let payer = Arc::new(Keypair::new());
    let key = key_of(&payer);
    let empty = UnsignedTransaction::new_with_payer(vec![], key).unwrap();
    assert_eq!(empty.serialize().unwrap().len(), 134);
    let instructions = vec![transfer(key, numbered_key(1), 42), heavy(key, 33)];
    let reference = bincode::serialize(&sdk_transaction(&key, &instructions)).unwrap();
    let transaction = UnsignedTransaction::new_with_payer(instructions, key).unwrap();
    assert_eq!(transaction.serialize().unwrap(), reference);
    assert_eq!(transaction.fee_payer(), key);
    assert_eq!(transaction.signer_keys(), &vec![key]);
}

#[test]
fn signing_keeps_the_size() {
    let payer = Arc::new(Keypair::new());
    let key = key_of(&payer);
    let mut builder = TransactionBuilder::limited(payer.clone());
    builder.add_instruction(heavy(key, 200)).unwrap();
    let prepared = builder.build_one();
    let unsigned = prepared.transaction.serialize().unwrap().len();
    assert_eq!(signed_size(&prepared), unsigned);
    let versioned = prepared
        .signed_versioned_transaction(solana_sdk::hash::Hash::new_unique())
        .unwrap();
    assert_eq!(bincode::serialize(&versioned).unwrap().len(), unsigned);
    assert_eq!(versioned.signatures.len(), 1);
}

#[test]
fn message_limits_are_checked() {
    let payer = Arc::new(Keypair::new());
    let key = key_of(&payer);
    let with_accounts = |count: u16, make: fn(Pubkey) -> AccountMeta| Instruction {
        program_id: numbered_key(1000),
        accounts: (0..count).map(|n| make(numbered_key(n))).collect(),
        data: vec![],
    };
    let within = |instruction: &Instruction| {
        solana_transaction_builder::message::within_key_limit(&key, &vec![instruction.clone()])
    };

    // Writable accounts that do not sign enter no count of the header.
    let writable = with_accounts(254, |k| AccountMeta::new(k, false));
    assert!(within(&writable));
    let transaction = UnsignedTransaction::new_with_payer(vec![writable.clone()], key).unwrap();
    let reference = sdk_transaction(&key, &[writable.clone()]);
    assert_eq!(reference.message.account_keys.len(), 256);
    assert_eq!(transaction.serialize().unwrap(), bincode::serialize(&reference).unwrap());
    assert!(within(&with_accounts(400, |k| AccountMeta::new(k, false))));

    // The program and the read-only accounts that do not sign share one count.
    let readonly = with_accounts(254, |k| AccountMeta::new_readonly(k, false));
    assert!(within(&readonly));
    assert_eq!(sdk_transaction(&key, &[readonly.clone()]).message.header.num_readonly_unsigned_accounts, 255);
    assert!(UnsignedTransaction::new_with_payer(vec![readonly], key).is_some());
    let too_many_readonly = with_accounts(255, |k| AccountMeta::new_readonly(k, false));
    assert!(!within(&too_many_readonly));
    assert!(UnsignedTransaction::new_with_payer(vec![too_many_readonly.clone()], key).is_none());

    // The fee payer and the signers share one count.
    let signers = with_accounts(254, |k| AccountMeta::new(k, true));
    assert!(within(&signers));
    assert_eq!(sdk_transaction(&key, &[signers.clone()]).message.header.num_required_signatures, 255);
    let too_many_signers = with_accounts(255, |k| AccountMeta::new_readonly(k, true));
    assert!(!within(&too_many_signers));
    assert!(UnsignedTransaction::new_with_payer(vec![too_many_signers], key).is_none());

    let repeated = Instruction {
        program_id: numbered_key(1000),
        accounts: vec![AccountMeta::new(key, true); 400],
        data: vec![],
    };
    assert!(UnsignedTransaction::new_with_payer(vec![repeated], key).is_some());
    let long = Instruction { program_id: numbered_key(1), accounts: vec![], data: vec![0u8; 65536] };
    assert!(!solana_transaction_builder::message::within_length_limits(&key, &vec![long.clone()]));
    assert!(UnsignedTransaction::new_with_payer(vec![long.clone()], key).is_none());
    let short = Instruction { program_id: numbered_key(1), accounts: vec![], data: vec![0u8; 65535] };
    assert!(solana_transaction_builder::message::within_length_limits(&key, &vec![short.clone()]));
    assert!(UnsignedTransaction::new_with_payer(vec![short], key).is_some());

    let mut unlimited = TransactionBuilder::unlimited(payer.clone());
    assert!(unlimited.add_instruction(writable.clone()).is_ok());
    assert!(unlimited.fits_single_transaction());
    unlimited.abort_instruction_pack();
    assert_eq!(
        unlimited.add_instruction(too_many_readonly),
        Err(TransactionBuildError::TooBigTransaction)
    );
    assert_eq!(unlimited.add_instruction(long), Err(TransactionBuildError::TooBigTransaction));
    assert!(unlimited.is_empty());

    let mut limited = TransactionBuilder::limited(payer.clone());
    assert_eq!(limited.add_instruction(writable), Err(TransactionBuildError::TooBigTransaction));
}

#[test]
fn without_a_budget_all_packs_are_combined_at_once() {
    let payer = Arc::new(Keypair::new());
    let key = key_of(&payer);
    let mut builder = TransactionBuilder::unlimited(payer.clone());
    // The first pack holds as many read-only keys as the header can count. With
    // the second pack there is one too many; the third writes to one of them, so
    // that all three together can be encoded again.
    let readonly: Vec<AccountMeta> =
        (0..254u16).map(|n| AccountMeta::new_readonly(numbered_key(n), false)).collect();
    let packs = vec![
        Instruction { program_id: numbered_key(1000), accounts: readonly, data: vec![] },
        Instruction {
            program_id: numbered_key(1000),
            accounts: vec![AccountMeta::new_readonly(numbered_key(500), false)],
            data: vec![],
        },
        Instruction {
            program_id: numbered_key(1000),
            accounts: vec![AccountMeta::new(numbered_key(0), false)],
            data: vec![],
        },
    ];
    assert!(!solana_transaction_builder::message::within_key_limit(&key, &packs[..2].to_vec()));
    for instruction in packs.iter() {
        builder.add_instruction(instruction.clone()).unwrap();
        builder.finish_instruction_pack();
    }
    assert!(builder.fits_single_transaction());
    let emitted = drain_combined(&mut builder);
    assert_eq!(emitted.len(), 1);
    assert_eq!(emitted[0].transaction.instructions().len(), 3);
    let reference = sdk_transaction(&key, &packs);
    assert_eq!(reference.message.header.num_readonly_unsigned_accounts, 255);
    assert_eq!(
        emitted[0].transaction.serialize().unwrap(),
        bincode::serialize(&reference).unwrap()
    );
}

#[test]
fn sequences_drain_the_builder() {
    let payer = Arc::new(Keypair::new());
    let key = key_of(&payer);
    let mut builder = TransactionBuilder::limited(payer.clone());
    for n in 0..3u16 {
        builder.add_instruction(transfer(key, numbered_key(n), 1)).unwrap();
        builder.finish_instruction_pack();
    }
    builder.add_instruction(transfer(key, numbered_key(9), 1)).unwrap();
    assert!(!builder.is_empty());
    assert_eq!(drain(&mut builder).len(), 4);
    assert!(builder.is_empty());
    assert!(builder.build_next().is_none());
    assert!(builder.build_next_combined().is_none());

    for n in 0..3u16 {
        builder.add_instruction(transfer(key, numbered_key(n), 1)).unwrap();
        builder.finish_instruction_pack();
    }
    builder.add_instruction(transfer(key, numbered_key(9), 1)).unwrap();
    assert_eq!(drain_combined(&mut builder).len(), 1);
    assert!(builder.is_empty());
}

#[test]
fn combining_never_emits_more() {
    let payer = Arc::new(Keypair::new());
    let key = key_of(&payer);
    let mut one_by_one = TransactionBuilder::limited(payer.clone());
    let mut combined = TransactionBuilder::limited(payer.clone());
    for size in [500usize, 500, 300, 900, 100, 100, 1000] {
        one_by_one.add_instruction(heavy(key, size)).unwrap();
        one_by_one.finish_instruction_pack();
        combined.add_instruction(heavy(key, size)).unwrap();
        combined.finish_instruction_pack();
    }
    let singles = drain(&mut one_by_one);
    let merged = drain_combined(&mut combined);
    assert_eq!(singles.len(), 7);
    assert_eq!(merged.len(), 5);
    assert!(merged.len() <= singles.len());
    let sizes: Vec<usize> = merged.iter().map(|p| p.transaction.instructions().len()).collect();
    assert_eq!(sizes, vec![2, 1, 2, 1, 1]);
    for prepared in &merged {
        assert!(signed_size(prepared) <= 1232);
    }
}

#[test]
fn descriptions_travel_with_their_instructions() {
    let payer = Arc::new(Keypair::new());
    let key = key_of(&payer);
    let mut builder = TransactionBuilder::limited(payer.clone());
    builder
        .add_instruction_with_description(transfer(key, numbered_key(1), 1), "first".to_string())
        .unwrap();
    builder.add_instruction(transfer(key, numbered_key(2), 1)).unwrap();
    builder.finish_instruction_pack();
    builder
        .add_instructions_with_description(vec![
            (transfer(key, numbered_key(3), 1), "third".to_string()),
            (heavy(key, 800), "heavy".to_string()),
        ])
        .unwrap();
    builder.finish_instruction_pack();
    builder
        .add_instruction_with_description(heavy(key, 900), "alone".to_string())
        .unwrap();
    let first = builder.build_next_combined().unwrap();
    assert_eq!(first.transaction.instructions().len(), 4);
    assert_eq!(
        first.instruction_descriptions,
        vec![Some("first".to_string()), None, Some("third".to_string()), Some("heavy".to_string())]
    );
    assert_eq!(
        first.single_description(),
        Some("#0: first\n#2: third\n#3: heavy".to_string())
    );
    let second = builder.build_next_combined().unwrap();
    assert_eq!(second.instruction_descriptions, vec![Some("alone".to_string())]);
    assert_eq!(second.single_description(), Some("#0: alone".to_string()));
    assert!(builder.build_next_combined().is_none());
}

#[test]
fn single_description_is_absent_without_descriptions() {
    let payer = Arc::new(Keypair::new());
    let key = key_of(&payer);
    let mut builder = TransactionBuilder::limited(payer.clone());
    builder
        .add_instructions(vec![transfer(key, numbered_key(1), 1), transfer(key, numbered_key(2), 1)])
        .unwrap();
    let prepared = builder.build_one();
    assert_eq!(prepared.instruction_descriptions, vec![None, None]);
    assert_eq!(prepared.single_description(), None);
    let mut described = prepared.clone();
    described.instruction_descriptions = (0..12).map(|n| if n >= 10 { Some(format!("d{}", n)) } else { None }).collect();
    assert_eq!(described.single_description(), Some("#10: d10\n#11: d11".to_string()));
    described.instruction_descriptions = vec![Some(String::new())];
    assert_eq!(described.single_description(), None);
    described.instruction_descriptions =
        vec![Some(String::new()), None, Some("said".to_string()), Some(String::new())];
    assert_eq!(described.single_description(), Some("#2: said".to_string()));
    described.instruction_descriptions = vec![];
    assert_eq!(described.single_description(), None);
}

#[test]
fn add_instructions_stops_at_the_first_refusal() {
    let payer = Arc::new(Keypair::new());
    let key = key_of(&payer);
    let stranger = Keypair::new();
    let mut builder = TransactionBuilder::limited(payer.clone());
    let outcome = builder.add_instructions(vec![
        transfer(key, numbered_key(1), 1),
        transfer(key_of(&stranger), numbered_key(2), 1),
        transfer(key, numbered_key(3), 1),
    ]);
    assert_eq!(outcome, Err(TransactionBuildError::UnknownSigner(key_of(&stranger))));
    assert_eq!(builder.instructions().len(), 1);
    assert_eq!(builder.instructions()[0].accounts[1].pubkey, numbered_key(1));
}

#[test]
fn abort_drops_the_current_pack_only() {
    let payer = Arc::new(Keypair::new());
    let key = key_of(&payer);
    let mut builder = TransactionBuilder::limited(payer.clone());
    builder.add_instruction(transfer(key, numbered_key(1), 1)).unwrap();
    builder.finish_instruction_pack();
    builder.add_instruction(transfer(key, numbered_key(2), 1)).unwrap();
    builder.abort_instruction_pack();
    assert_eq!(builder.instructions().len(), 1);
    builder.add_instruction(transfer(key, numbered_key(3), 1)).unwrap();
    let emitted = drain(&mut builder);
    assert_eq!(emitted.len(), 2);
    assert_eq!(emitted[1].transaction.instructions()[0].accounts[1].pubkey, numbered_key(3));
}

#[test]
fn an_empty_finished_pack_is_emitted_empty() {
    let payer = Arc::new(Keypair::new());
    let mut builder = TransactionBuilder::new(payer.clone(), 1);
    assert!(builder.is_empty());
    builder.finish_instruction_pack();
    assert!(!builder.is_empty());
    let prepared = builder.build_next().unwrap();
    assert_eq!(prepared.transaction.instructions().len(), 0);
    assert_eq!(signed_size(&prepared), 134);
    assert!(builder.is_empty());
    assert_eq!(
        builder.add_instruction(transfer(key_of(&payer), numbered_key(1), 1)),
        Err(TransactionBuildError::TooBigTransaction)
    );
}

#[test]
fn single_combined_takes_all_or_nothing() {
    let payer = Arc::new(Keypair::new());
    let key = key_of(&payer);
    let mut builder = TransactionBuilder::limited(payer.clone());
    assert!(builder.build_single_combined().is_none());
    builder.add_instruction(heavy(key, 300)).unwrap();
    builder.finish_instruction_pack();
    builder.add_instruction(heavy(key, 300)).unwrap();
    assert!(builder.fits_single_transaction());
    let prepared = builder.build_single_combined().unwrap();
    assert_eq!(prepared.transaction.instructions().len(), 2);
    assert!(builder.is_empty());

    builder.add_instruction(heavy(key, 900)).unwrap();
    builder.finish_instruction_pack();
    builder.add_instruction(heavy(key, 900)).unwrap();
    assert!(!builder.fits_single_transaction());
    assert!(builder.build_single_combined().is_none());
    assert_eq!(builder.instructions().len(), 2);
    assert_eq!(drain_combined(&mut builder).len(), 2);
}

#[test]
fn an_unlimited_builder_fits_whatever_can_be_encoded() {
    let payer = Arc::new(Keypair::new());
    let key = key_of(&payer);
    let mut builder = TransactionBuilder::unlimited(payer.clone());
    for _ in 0..5 {
        builder.add_instruction(heavy(key, 1000)).unwrap();
        builder.finish_instruction_pack();
    }
    assert!(builder.fits_single_transaction());
    let prepared = builder.build_single_combined().unwrap();
    assert_eq!(prepared.transaction.instructions().len(), 5);
    assert!(signed_size(&prepared) > 5000);
}

#[test]
fn generated_signers_can_sign() {
    let payer = Arc::new(Keypair::new());
    let mut builder = TransactionBuilder::limited(payer.clone());
    let generated = builder.generate_signer();
    let another = builder.generate_signer();
    assert_ne!(generated, another);
    assert_eq!(key_of(&builder.get_signer(&generated).unwrap()), generated);
    builder.add_instruction(transfer(generated, numbered_key(1), 1)).unwrap();
    let prepared = builder.build_one();
    assert_eq!(prepared.signers.len(), 2);
    assert!(signed_size(&prepared) <= 1232);
}

#[test]
fn build_errors_have_messages() {
    assert_eq!(TransactionBuildError::TooBigTransaction.to_string(), "Too big transaction");
    let key = numbered_key(77);
    let text = solana_sdk::pubkey::Pubkey::new_from_array(key.to_bytes()).to_string();
    assert_eq!(
        TransactionBuildError::UnknownSigner(key).to_string(),
        format!("Unknown signer ${}", text)
    );
    assert_eq!(
        Pubkey::new_from_array([0u8; 32]).to_string(),
        "11111111111111111111111111111111"
    );
}

#[test]
fn a_copy_of_a_builder_emits_the_same() {
    let payer = Arc::new(Keypair::new());
    let key = key_of(&payer);
    let mut builder = TransactionBuilder::limited(payer.clone());
    builder
        .add_instruction_with_description(heavy(key, 700), "first".to_string())
        .unwrap();
    builder.finish_instruction_pack();
    builder.add_instruction(heavy(key, 700)).unwrap();
    let mut copy = builder.clone();
    let emitted = drain_combined(&mut builder);
    assert!(builder.is_empty());
    assert!(!copy.is_empty());
    let again = drain_combined(&mut copy);
    assert_eq!(emitted.len(), 2);
    assert_eq!(again.len(), 2);
    for (one, other) in emitted.iter().zip(again.iter()) {
        assert_eq!(one.transaction.serialize(), other.transaction.serialize());
        assert_eq!(one.instruction_descriptions, other.instruction_descriptions);
        assert_eq!(one.signers.len(), other.signers.len());
    }
}
