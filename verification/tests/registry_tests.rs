use solana_sdk::signature::Keypair;
use solana_sdk::signer::Signer;
use solana_transaction_builder::{
    AccountMeta, Instruction, PreparedTransaction, Pubkey, SignatureBuilder, SignedTransaction,
    SigningError, UnsignedTransaction,
};
use std::sync::Arc;

fn key_of(keypair: &Keypair) -> Pubkey {
    Pubkey::new_from_array(keypair.pubkey().to_bytes())
}

fn signed_by(keys: &[Pubkey]) -> Instruction {
    Instruction {
        program_id: Pubkey::new_from_array([3u8; 32]),
        accounts: keys.iter().map(|key| AccountMeta::new_readonly(*key, true)).collect(),
        data: vec![1, 2, 3],
    }
}

#[test]
fn a_signer_is_filed_under_its_public_key() {
    let mut registry = SignatureBuilder::new();
    let first = Arc::new(Keypair::new());
    let second = Arc::new(Keypair::new());
    assert!(!registry.contains_key(&key_of(&first)));
    assert!(registry.get_signer(&key_of(&first)).is_none());
    assert_eq!(registry.add_signer(first.clone()), key_of(&first));
    assert_eq!(registry.add_signer(second.clone()), key_of(&second));
    assert!(registry.contains_key(&key_of(&first)));
    assert!(registry.contains_key(&key_of(&second)));
    assert_eq!(registry.get_signer(&key_of(&second)).unwrap().to_bytes(), second.to_bytes());
    assert_eq!(registry.pubkeys(), vec![key_of(&first), key_of(&second)]);
    assert!(!registry.is_interactive());
}

#[test]
fn adding_a_signer_twice_keeps_one_entry() {
    let mut registry = SignatureBuilder::default();
    let first = Arc::new(Keypair::new());
    let copy = Arc::new(Keypair::from_bytes(&first.to_bytes()).unwrap());
    registry.add_signer(first.clone());
    registry.add_signer(Arc::new(Keypair::new()));
    registry.add_signer(copy.clone());
    assert_eq!(registry.signers().len(), 2);
    assert_eq!(registry.pubkeys().len(), 2);
    assert!(Arc::ptr_eq(&registry.get_signer(&key_of(&first)).unwrap(), &copy));
    let fresh = registry.new_signer();
    assert!(registry.contains_key(&fresh));
    assert_eq!(registry.clone().into_signers().len(), 3);
    assert_eq!(key_of(&registry.into_signers()[2]), fresh);
}

#[test]
fn signatures_come_in_the_order_of_the_keys() {
    let mut registry = SignatureBuilder::new();
    for _ in 0..3 {
        registry.new_signer();
    }
    let message = b"a message to sign";
    let signatures = registry.sign_message(message);
    let keys = registry.pubkeys();
    assert_eq!(signatures.len(), 3);
    for (signature, key) in signatures.iter().zip(keys.iter()) {
        let signature = solana_sdk::signature::Signature::from(signature.bytes);
        assert!(signature.verify(&key.to_bytes(), message));
        assert!(!signature.verify(&key.to_bytes(), b"another message"));
    }
    assert_eq!(registry.sign_message(message), signatures);
    let signer = registry.get_signer(&keys[1]).unwrap();
    assert_eq!(<[u8; 64]>::from(signer.sign_message(message)), signatures[1].bytes);
}

#[test]
fn signers_for_a_transaction_follow_its_account_keys() {
    let payer = Arc::new(Keypair::new());
    let other = Arc::new(Keypair::new());
    let mut registry = SignatureBuilder::new();
    registry.add_signer(other.clone());
    registry.add_signer(payer.clone());
    let transaction = UnsignedTransaction::new_with_payer(
        vec![signed_by(&[key_of(&other), key_of(&payer)])],
        key_of(&payer),
    )
    .unwrap();
    assert_eq!(transaction.signer_keys(), &vec![key_of(&payer), key_of(&other)]);
    let signers = registry.signers_for_transaction(&transaction).unwrap();
    assert_eq!(signers.len(), 2);
    assert_eq!(signers[0].pubkey(), payer.pubkey());
    assert_eq!(signers[1].pubkey(), other.pubkey());
    let prepared = PreparedTransaction::new(transaction, &registry, vec![None]).unwrap();
    assert_eq!(prepared.signers.len(), 2);
}

#[test]
fn the_first_missing_signer_is_reported() {
    let payer = Arc::new(Keypair::new());
    let missing = Keypair::new();
    let also_missing = Keypair::new();
    let mut registry = SignatureBuilder::new();
    registry.add_signer(payer.clone());
    let transaction = UnsignedTransaction::new_with_payer(
        vec![signed_by(&[key_of(&missing), key_of(&also_missing)])],
        key_of(&payer),
    )
    .unwrap();
    let expected = transaction.signer_keys()[1];
    assert!(expected == key_of(&missing) || expected == key_of(&also_missing));
    assert_eq!(registry.signers_for_transaction(&transaction).err(), Some(expected));
    match PreparedTransaction::new(transaction.clone(), &registry, vec![None]) {
        Err(key) => assert_eq!(key, expected),
        Ok(_) => panic!("a signer is missing"),
    }
    assert!(matches!(
        registry.sign_transaction(&transaction, solana_sdk::hash::Hash::default()),
        Err(SigningError::NotEnoughSigners)
    ));
}

#[test]
fn required_signers_come_payer_first_then_by_write_access() {
    let payer = Pubkey::new_from_array([9u8; 32]);
    let writable = Pubkey::new_from_array([8u8; 32]);
    let readonly = Pubkey::new_from_array([1u8; 32]);
    let bystander = Pubkey::new_from_array([2u8; 32]);
    let instruction = Instruction {
        program_id: Pubkey::new_from_array([5u8; 32]),
        accounts: vec![
            AccountMeta::new_readonly(readonly, true),
            AccountMeta::new(bystander, false),
            AccountMeta::new(writable, true),
            AccountMeta::new_readonly(writable, false),
        ],
        data: vec![],
    };
    let transaction = UnsignedTransaction::new_with_payer(vec![instruction], payer).unwrap();
    assert_eq!(transaction.signer_keys(), &vec![payer, writable, readonly]);
}

#[test]
fn the_registry_signs_a_transaction() {
    let payer = Arc::new(Keypair::new());
    let other = Arc::new(Keypair::new());
    let mut registry = SignatureBuilder::new();
    registry.add_signer(payer.clone());
    registry.add_signer(other.clone());
    registry.new_signer();
    let transaction = UnsignedTransaction::new_with_payer(
        vec![signed_by(&[key_of(&other)])],
        key_of(&payer),
    )
    .unwrap();
    let blockhash = solana_sdk::hash::Hash::new_unique();
    let signed = registry.sign_transaction(&transaction, blockhash).unwrap();
    assert_eq!(signed.message.recent_blockhash, blockhash);
    assert_eq!(signed.signatures.len(), 2);
    assert!(signed.verify().is_ok());
    assert_eq!(signed.message.account_keys[0], payer.pubkey());
    assert_eq!(signed.message.instructions[0].data, vec![1, 2, 3]);
}

#[test]
fn a_prepared_transaction_with_wrong_signers_is_not_signed() {
    let payer = Arc::new(Keypair::new());
    let mut registry = SignatureBuilder::new();
    registry.add_signer(payer.clone());
    let transaction =
        UnsignedTransaction::new_with_payer(vec![signed_by(&[])], key_of(&payer)).unwrap();
    let mut prepared = PreparedTransaction::new(transaction, &registry, vec![None]).unwrap();
    prepared.signers = vec![Arc::new(Keypair::new())];
    assert_eq!(
        prepared.signed_transaction(solana_sdk::hash::Hash::default()).err(),
        Some(solana_sdk::signer::SignerError::KeypairPubkeyMismatch)
    );
    prepared.signers = vec![];
    assert_eq!(
        prepared.signed_versioned_transaction(solana_sdk::hash::Hash::default()).err(),
        Some(solana_sdk::signer::SignerError::NotEnoughSigners)
    );
}

#[test]
fn signatures_are_those_of_the_key_pairs_over_the_message() {
    let payer = Arc::new(Keypair::new());
    let other = Arc::new(Keypair::new());
    let mut registry = SignatureBuilder::new();
    registry.add_signer(other.clone());
    registry.add_signer(payer.clone());
    let transaction = UnsignedTransaction::new_with_payer(
        vec![signed_by(&[key_of(&other)])],
        key_of(&payer),
    )
    .unwrap();
    let blockhash = solana_sdk::hash::Hash::new_unique();
    let message = transaction.message_data(&blockhash);
    let signatures = registry.transaction_signatures(&transaction, &blockhash).unwrap();
    assert_eq!(signatures.len(), 2);
    assert_eq!(signatures[0].bytes, <[u8; 64]>::from(payer.sign_message(&message)));
    assert_eq!(signatures[1].bytes, <[u8; 64]>::from(other.sign_message(&message)));

    let prepared = PreparedTransaction::new(transaction.clone(), &registry, vec![None]).unwrap();
    let by_sdk = prepared.signed_transaction(blockhash).unwrap();
    assert_eq!(by_sdk.message_data(), message);
    let of_sdk: Vec<[u8; 64]> = by_sdk.signatures.iter().map(|made| <[u8; 64]>::from(*made)).collect();
    let ours: Vec<[u8; 64]> = signatures.iter().map(|made| made.bytes).collect();
    assert_eq!(of_sdk, ours);
    assert_eq!(registry.sign_transaction(&transaction, blockhash).unwrap(), by_sdk);
    assert_ne!(transaction.message_data(&solana_sdk::hash::Hash::new_unique()), message);

    let versioned = prepared.signed_versioned_transaction(blockhash).unwrap();
    assert_eq!(versioned.signatures, by_sdk.signatures);
    assert_eq!(versioned.message.serialize(), message);
    assert_eq!(
        bincode::serialize(&by_sdk).unwrap().len(),
        transaction.serialize().unwrap().len()
    );
}

#[test]
fn each_signature_stands_at_the_place_of_its_key() {
    let payer = Arc::new(Keypair::new());
    let other = Arc::new(Keypair::new());
    let mut registry = SignatureBuilder::new();
    registry.add_signer(other.clone());
    registry.add_signer(payer.clone());
    let transaction = UnsignedTransaction::new_with_payer(
        vec![signed_by(&[key_of(&other)])],
        key_of(&payer),
    )
    .unwrap();
    let blockhash = solana_sdk::hash::Hash::default();
    let mut prepared = PreparedTransaction::new(transaction, &registry, vec![None]).unwrap();
    let in_order = prepared.signed_transaction(blockhash).unwrap();
    assert!(in_order.verify().is_ok());
    prepared.signers.swap(0, 1);
    assert_eq!(prepared.signed_transaction(blockhash).unwrap(), in_order);
    prepared.signers = vec![payer.clone(), other.clone(), payer.clone()];
    assert_eq!(prepared.signed_transaction(blockhash).unwrap(), in_order);
    prepared.signers.truncate(1);
    assert_eq!(
        prepared.signed_transaction(blockhash).err(),
        Some(solana_sdk::signer::SignerError::NotEnoughSigners)
    );
    prepared.signers = vec![payer.clone(), Arc::new(Keypair::new())];
    assert_eq!(
        prepared.signed_transaction(blockhash).err(),
        Some(solana_sdk::signer::SignerError::KeypairPubkeyMismatch)
    );
}

#[test]
fn signatures_made_elsewhere_are_put_into_the_transaction() {
    let payer = Arc::new(Keypair::new());
    let other = Arc::new(Keypair::new());
    let mut registry = SignatureBuilder::new();
    registry.add_signer(other.clone());
    registry.add_signer(payer.clone());
    let transaction = UnsignedTransaction::new_with_payer(
        vec![signed_by(&[key_of(&other)])],
        key_of(&payer),
    )
    .unwrap();
    let blockhash = solana_sdk::hash::Hash::new_unique();
    let mut signatures = registry.transaction_signatures(&transaction, &blockhash).unwrap();
    let signed = transaction.signed_with(&blockhash, &signatures).unwrap();
    assert_eq!(signed, registry.sign_transaction(&transaction, blockhash).unwrap());
    assert!(signed.verify().is_ok());
    assert_eq!(
        bincode::serialize(&signed).unwrap().len(),
        transaction.serialize().unwrap().len()
    );
    let spare = signatures[0];
    signatures.push(spare);
    assert_eq!(
        transaction.signed_with(&blockhash, &signatures).err(),
        Some(SigningError::TooManySigners)
    );
    signatures.truncate(1);
    assert_eq!(
        transaction.signed_with(&blockhash, &signatures).err(),
        Some(SigningError::NotEnoughSigners)
    );
}

fn takes_sync_send<T: Sync + Send>(_t: T) {}

#[test]
fn prepared_transactions_can_cross_threads() {
    let payer = Arc::new(Keypair::new());
    let mut registry = SignatureBuilder::new();
    registry.add_signer(payer.clone());
    let transaction =
        UnsignedTransaction::new_with_payer(vec![signed_by(&[])], key_of(&payer)).unwrap();
    let prepared = PreparedTransaction::new(transaction, &registry, vec![None]).unwrap();
    assert_eq!(prepared.signers.len(), 1);
    takes_sync_send(prepared.clone());
    takes_sync_send(&prepared);
}

#[test]
fn the_signed_transaction_carries_the_signatures_over_its_message() {
    let payer = Arc::new(Keypair::new());
    let other = Arc::new(Keypair::new());
    let mut registry = SignatureBuilder::new();
    registry.add_signer(payer.clone());
    registry.add_signer(other.clone());
    let instruction = signed_by(&[key_of(&other)]);
    let transaction =
        UnsignedTransaction::new_with_payer(vec![instruction.clone()], key_of(&payer)).unwrap();
    let blockhash = solana_sdk::hash::Hash::new_unique();
    let signatures = registry.transaction_signatures(&transaction, &blockhash).unwrap();
    let signed = registry.sign_transaction(&transaction, blockhash).unwrap();

    assert_eq!(signed.message_data(), transaction.message_data(&blockhash));
    let carried: Vec<[u8; 64]> =
        signed.signatures.iter().map(|made| <[u8; 64]>::from(*made)).collect();
    let stated: Vec<[u8; 64]> = signatures.iter().map(|made| made.bytes).collect();
    assert_eq!(carried, stated);
    assert_ne!(carried[0], carried[1]);

    let sdk_instruction = solana_sdk::instruction::Instruction {
        program_id: solana_sdk::pubkey::Pubkey::new_from_array(instruction.program_id.to_bytes()),
        accounts: instruction
            .accounts
            .iter()
            .map(|account| solana_sdk::instruction::AccountMeta {
                pubkey: solana_sdk::pubkey::Pubkey::new_from_array(account.pubkey.to_bytes()),
                is_signer: account.is_signer,
                is_writable: account.is_writable,
            })
            .collect(),
        data: instruction.data.clone(),
    };
    let mut by_sdk = solana_sdk::transaction::Transaction::new_with_payer(
        &[sdk_instruction],
        Some(&payer.pubkey()),
    );
    by_sdk.try_sign(&[other.as_ref(), payer.as_ref()], blockhash).unwrap();
    assert_eq!(signed, by_sdk);

    let prepared = PreparedTransaction::new(transaction, &registry, vec![None]).unwrap();
    assert_eq!(prepared.signed_transaction(blockhash).unwrap(), by_sdk);
}
