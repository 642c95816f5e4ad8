use borsh::BorshSerialize;
use solana_transaction_builder::{
    base64_blocks, AccountMeta, CodecError, Instruction, Pubkey, TransactionAccount,
    TransactionInstruction,
};

fn key(n: u8) -> Pubkey {
    let mut bytes = [n; 32];
    bytes[31] = 255 - n;
    Pubkey::new_from_array(bytes)
}

fn sample() -> Instruction {
    Instruction {
        program_id: key(1),
        accounts: vec![
            AccountMeta::new(key(2), true),
            AccountMeta::new_readonly(key(3), false),
            AccountMeta::new_readonly(key(4), true),
            AccountMeta::new(key(5), false),
        ],
        data: vec![9, 8, 7, 6, 5],
    }
}

#[test]
fn account_meta_round_trip() {
    for is_signer in [false, true] {
        for is_writable in [false, true] {
            let meta = AccountMeta { pubkey: key(7), is_signer, is_writable };
            let account = TransactionAccount::from_account_meta(&meta);
            assert_eq!(account.pubkey, meta.pubkey);
            assert_eq!(account.is_signer, is_signer);
            assert_eq!(account.is_writable, is_writable);
            assert_eq!(account.to_account_meta(), meta);
        }
    }
    assert_eq!(AccountMeta::new(key(1), true), AccountMeta { pubkey: key(1), is_signer: true, is_writable: true });
    assert_eq!(
        AccountMeta::new_readonly(key(1), false),
        AccountMeta { pubkey: key(1), is_signer: false, is_writable: false }
    );
}

#[test]
fn encoding_is_that_of_borsh() {
    let instruction = sample();
    let serialized = TransactionInstruction::from_instruction(&instruction);
    let accounts: Vec<([u8; 32], bool, bool)> = instruction
        .accounts
        .iter()
        .map(|account| (account.pubkey.to_bytes(), account.is_signer, account.is_writable))
        .collect();
    let reference = (instruction.program_id.to_bytes(), accounts, instruction.data.clone())
        .try_to_vec()
        .unwrap();
    let encoded = serialized.try_to_vec().unwrap();
    assert_eq!(encoded, reference);
    assert_eq!(encoded.len(), 32 + 4 + 4 * 34 + 4 + 5);
    assert_eq!(&encoded[32..36], &[4, 0, 0, 0]);
    assert_eq!(&encoded[36 + 32..36 + 34], &[1, 1]);
    assert_eq!(&encoded[36 + 34 + 32..36 + 68], &[0, 0]);
}

#[test]
fn lengths_are_written_least_significant_first() {
    let instruction = TransactionInstruction {
        program_id: key(0),
        accounts: vec![],
        data: vec![0xab; 0x01_02_03],
    };
    let encoded = instruction.try_to_vec().unwrap();
    assert_eq!(&encoded[32..36], &[0, 0, 0, 0]);
    assert_eq!(&encoded[36..40], &[0x03, 0x02, 0x01, 0x00]);
    let decoded = TransactionInstruction::try_from_slice(&encoded).unwrap();
    assert_eq!(decoded.data.len(), 0x01_02_03);
}

#[test]
fn base64_round_trip_gives_the_instruction_back() {
    let instruction = sample();
    let text = TransactionInstruction::from_instruction(&instruction).to_base64().unwrap();
    let decoded = TransactionInstruction::from_base64(&text).unwrap();
    let back = decoded.to_instruction();
    assert_eq!(back.program_id, instruction.program_id);
    assert_eq!(back.accounts, instruction.accounts);
    assert_eq!(back.data, instruction.data);
}

#[test]
fn base64_is_the_standard_one() {
    let instruction = TransactionInstruction { program_id: Pubkey::new_from_array([0u8; 32]), accounts: vec![], data: vec![1, 2] };
    let text = instruction.to_base64().unwrap();
    assert_eq!(text, "AAAAAAAAAAAAAAAAAAAAAAAAAAAAAAAAAAAAAAAAAAAAAAAAAgAAAAEC");
    let padded = TransactionInstruction { program_id: Pubkey::new_from_array([255u8; 32]), accounts: vec![], data: vec![] };
    assert_eq!(padded.to_base64().unwrap(), "//////////////////////////////////////////8AAAAAAAAAAA==");
    assert_eq!(
        TransactionInstruction::from_base64("//////////////////////////////////////////8AAAAAAAAAAA==")
            .unwrap()
            .program_id,
        Pubkey::new_from_array([255u8; 32])
    );
}

#[test]
fn defects_are_reported() {
    let encoded = TransactionInstruction::from_instruction(&sample()).try_to_vec().unwrap();
    assert!(TransactionInstruction::try_from_slice(&encoded).is_ok());
    assert_eq!(TransactionInstruction::try_from_slice(&[]).err(), Some(CodecError::UnexpectedEnd));
    assert_eq!(
        TransactionInstruction::try_from_slice(&encoded[..35]).err(),
        Some(CodecError::UnexpectedEnd)
    );
    for cut in [36, 36 + 33, 36 + 4 * 34 + 3, encoded.len() - 1] {
        assert_eq!(
            TransactionInstruction::try_from_slice(&encoded[..cut]).err(),
            Some(CodecError::UnexpectedEnd)
        );
    }
    let mut longer = encoded.clone();
    longer.push(0);
    assert_eq!(TransactionInstruction::try_from_slice(&longer).err(), Some(CodecError::TrailingBytes));
    let mut flagged = encoded.clone();
    flagged[36 + 32] = 2;
    assert_eq!(TransactionInstruction::try_from_slice(&flagged).err(), Some(CodecError::InvalidBool));
    let mut flagged = encoded.clone();
    flagged[36 + 34 + 33] = 255;
    assert_eq!(TransactionInstruction::try_from_slice(&flagged).err(), Some(CodecError::InvalidBool));
    assert_eq!(
        TransactionInstruction::try_from_slice(&flagged[..36 + 34 + 33]).err(),
        Some(CodecError::UnexpectedEnd)
    );
    assert_eq!(
        TransactionInstruction::from_base64("not base64!").err(),
        Some(CodecError::InvalidBase64)
    );
    assert_eq!(TransactionInstruction::from_base64("AAAA").err(), Some(CodecError::UnexpectedEnd));
}

#[test]
fn blocks_name_the_program_and_hold_the_encoding() {
    let instructions = vec![sample(), Instruction { program_id: Pubkey::new_from_array([0u8; 32]), accounts: vec![], data: vec![1, 2] }];
    let blocks = base64_blocks(&instructions).unwrap();
    assert_eq!(blocks.len(), 2);
    assert_eq!(
        blocks[1],
        "program: 11111111111111111111111111111111\n  AAAAAAAAAAAAAAAAAAAAAAAAAAAAAAAAAAAAAAAAAAAAAAAAAgAAAAEC"
    );
    let program = solana_sdk::pubkey::Pubkey::new_from_array(key(1).to_bytes()).to_string();
    let text = TransactionInstruction::from_instruction(&sample()).to_base64().unwrap();
    assert_eq!(blocks[0], format!("program: {}\n  {}", program, text));
    assert!(base64_blocks(&vec![]).unwrap().is_empty());
}

#[test]
fn a_serialized_instruction_can_be_copied() {
    let serialized = TransactionInstruction::from_instruction(&sample());
    let copy = serialized.clone();
    assert_eq!(copy.program_id, serialized.program_id);
    assert_eq!(copy.accounts, serialized.accounts);
    assert_eq!(copy.data, serialized.data);
    assert_eq!(copy.accounts[0], TransactionAccount { pubkey: key(2), is_signer: true, is_writable: true });
}
