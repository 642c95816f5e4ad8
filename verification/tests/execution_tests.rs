use solana_sdk::signature::Keypair;
use solana_sdk::signer::Signer;
use solana_transaction_builder::builder_executor::describe_failure;
use solana_transaction_builder::{
    builder_to_execution_data, parallel_execution_limit, simulation_plan, AccountMeta,
    BatchExecution, BatchMode,
    Instruction, PriorityFeeConfiguration, PriorityFeePolicy, Pubkey, TransactionBuilder,
    TransactionBuilderExecutionData, TransactionBuilderExecutionError,
    TransactionBuilderExecutionErrors, EXECUTOR_BATCH_LIMIT, EXECUTOR_CHANNEL_DEPTH,
    PARALLEL_EXECUTION_LIMIT,
};
use std::sync::Arc;

fn key_of(keypair: &Keypair) -> Pubkey {
    Pubkey::new_from_array(keypair.pubkey().to_bytes())
}

fn instruction(payer: Pubkey, size: usize) -> Instruction {
    Instruction {
        program_id: Pubkey::new_from_array([4u8; 32]),
        accounts: vec![AccountMeta::new(payer, true)],
        data: vec![0u8; size],
    }
}

fn policy(tiers: u64) -> PriorityFeePolicy {
    let configurations = (0..tiers)
        .map(|tier| PriorityFeeConfiguration {
            micro_lamports_per_cu: 1_000 * tier,
            compute_unit_limit: 200_000,
        })
        .collect();
    PriorityFeePolicy::new(configurations).expect("at least one tier")
}

fn batch(entries: usize) -> Vec<TransactionBuilderExecutionData> {
    let payer = Arc::new(Keypair::new());
    let mut builder = TransactionBuilder::limited(payer.clone());
    for _ in 0..entries {
        builder.add_instruction(instruction(key_of(&payer), 10)).unwrap();
        builder.finish_instruction_pack();
    }
    builder_to_execution_data(
        "http://localhost:8899".to_string(),
        &mut builder,
        Some(policy(3)),
        policy(1),
        true,
    )
}

fn run(mode: BatchMode, data: &[TransactionBuilderExecutionData], failing: &[usize]) -> (Vec<usize>, Result<(), TransactionBuilderExecutionErrors>) {
    let mut execution = BatchExecution::new(mode, data.len());
    let mut attempted = Vec::new();
    while let Some(position) = execution.next_entry() {
        attempted.push(position);
        let outcome = if failing.contains(&position) {
            Err(anyhow::Error::msg(format!("entry {} refused", position)))
        } else {
            Ok(())
        };
        execution.report(&data[position].tx_uuid, outcome);
    }
    (attempted, execution.finish())
}

#[test]
fn parallel_batch_with_transient_failure() {
    let data = batch(3);
    let (attempted, result) = run(BatchMode::Parallel, &data, &[1]);
    assert_eq!(attempted, vec![0, 1, 2]);
    let errors = result.unwrap_err();
    assert_eq!(errors.len(), 1);
    let error = &errors.iter()[0];
    assert_eq!(error.tx_uuid, data[1].tx_uuid);
    assert_eq!(error.human_index, 2);
    assert_eq!(error.cause.to_string(), "entry 1 refused");
    assert_eq!(
        error.description,
        format!("Transaction 2/{} failed: entry 1 refused", data[1].tx_uuid)
    );
}

#[test]
fn sequential_fail_on_first_error() {
    let data = batch(3);
    let (attempted, result) =
        run(BatchMode::Sequential { fail_on_first_error: true }, &data, &[1]);
    assert_eq!(attempted, vec![0, 1]);
    let errors = result.unwrap_err();
    assert_eq!(errors.len(), 1);
    assert_eq!(errors.iter()[0].human_index, 2);
    assert_eq!(errors.iter()[0].tx_uuid, data[1].tx_uuid);

    let (attempted, result) =
        run(BatchMode::Sequential { fail_on_first_error: false }, &data, &[1]);
    assert_eq!(attempted, vec![0, 1, 2]);
    let errors = result.unwrap_err();
    assert_eq!(errors.len(), 1);
    assert_eq!(errors.iter()[0].human_index, 2);
    assert_eq!(
        errors.iter()[0].description,
        format!("Transaction 2/{} sequential execution failed: entry 1 refused", data[1].tx_uuid)
    );
}

#[test]
fn errors_are_collected_in_order() {
    let data = batch(4);
    let (attempted, result) =
        run(BatchMode::Sequential { fail_on_first_error: false }, &data, &[0, 2, 3]);
    assert_eq!(attempted, vec![0, 1, 2, 3]);
    let errors = result.unwrap_err();
    let ordinals: Vec<usize> = errors.iter().iter().map(|error| error.human_index).collect();
    assert_eq!(ordinals, vec![1, 3, 4]);
    assert_eq!(errors.source().unwrap().human_index, 1);
    let all: Vec<TransactionBuilderExecutionError> = errors.into_iter();
    assert_eq!(all[2].tx_uuid, data[3].tx_uuid);
}

#[test]
fn a_batch_without_failures_succeeds() {
    let data = batch(2);
    let (attempted, result) = run(BatchMode::Parallel, &data, &[]);
    assert_eq!(attempted, vec![0, 1]);
    assert!(result.is_ok());
    let (attempted, result) = run(BatchMode::Sequential { fail_on_first_error: true }, &[], &[]);
    assert!(attempted.is_empty());
    assert!(result.is_ok());
}

#[test]
fn reports_without_an_entry_change_nothing() {
    let mut execution = BatchExecution::new(BatchMode::Parallel, 1);
    execution.report("first", Err(anyhow::Error::msg("no")));
    assert_eq!(execution.next_entry(), None);
    execution.report("second", Err(anyhow::Error::msg("no")));
    let errors = execution.finish().unwrap_err();
    assert_eq!(errors.len(), 1);
    assert_eq!(errors.iter()[0].tx_uuid, "first");
}

#[test]
fn failure_descriptions_name_ordinal_and_identifier() {
    assert_eq!(
        describe_failure(BatchMode::Parallel, 12, "abc", "why"),
        "Transaction 12/abc failed: why"
    );
    assert_eq!(
        describe_failure(BatchMode::Sequential { fail_on_first_error: false }, 1, "id", "boom"),
        "Transaction 1/id sequential execution failed: boom"
    );
    assert_eq!(
        describe_failure(BatchMode::Parallel, 18446744073709551615, "", ""),
        "Transaction 18446744073709551615/ failed: "
    );
    assert_eq!(describe_failure(BatchMode::Parallel, 0, "z", "r"), "Transaction 0/z failed: r");
}

#[test]
fn the_limits_have_their_defaults() {
    assert_eq!(parallel_execution_limit(None), 30);
    assert_eq!(parallel_execution_limit(Some(7)), 7);
    assert_eq!(PARALLEL_EXECUTION_LIMIT, 30);
    assert_eq!(EXECUTOR_CHANNEL_DEPTH, 2);
    assert_eq!(EXECUTOR_BATCH_LIMIT, 4);
}

#[test]
fn a_policy_is_never_empty() {
    assert!(PriorityFeePolicy::new(vec![]).is_none());
    let three = policy(3);
    assert_eq!(three.len(), 3);
    assert_eq!(three.iter_priority_fee_configuration().len(), 3);
    assert_eq!(three.configuration(0).unwrap().micro_lamports_per_cu, 0);
    assert_eq!(three.configuration(2).unwrap().micro_lamports_per_cu, 2_000);
    assert_eq!(three.configuration(3), None);
    assert_eq!(three.simulation_configuration().unwrap().micro_lamports_per_cu, 1_000);
    assert_eq!(policy(1).simulation_configuration(), None);
    assert_eq!(three.clone().len(), 3);
}

#[test]
fn the_candidate_stream_follows_the_policy() {
    let data = batch(1);
    let entry = &data[0];
    assert_eq!(entry.candidate_count(), 3);
    let mut position = 0;
    while let Some(configuration) = entry.candidate(position) {
        assert_eq!(configuration.micro_lamports_per_cu, 1_000 * position as u64);
        let blockhash = solana_sdk::hash::Hash::new_unique();
        let candidate = entry.build(blockhash).unwrap();
        assert_eq!(*candidate.message.recent_blockhash(), blockhash);
        assert!(candidate.verify_with_results().iter().all(|ok| *ok));
        position += 1;
    }
    assert_eq!(position, 3);
}

#[test]
fn execution_data_gets_a_fresh_identifier() {
    let data = batch(2);
    assert_eq!(data[0].tx_uuid.len(), 36);
    assert_ne!(data[0].tx_uuid, data[1].tx_uuid);
    assert!(uuid::Uuid::parse_str(&data[0].tx_uuid).is_ok());
    assert_eq!(data[0].rpc_url, "http://localhost:8899");
    let copy = data[0].clone();
    assert_eq!(copy.tx_uuid, data[0].tx_uuid);
    let named = TransactionBuilderExecutionData::with_uuid(
        copy.prepared_transaction.clone(),
        "url".to_string(),
        policy(1),
        "fixed".to_string(),
    );
    assert_eq!(named.tx_uuid, "fixed");
    assert_eq!(named.candidate_count(), 1);
    let fresh = TransactionBuilderExecutionData::new(copy.prepared_transaction, "url".to_string(), policy(2));
    assert_ne!(fresh.tx_uuid, data[0].tx_uuid);
    assert_eq!(fresh.rpc_url, "url");
}

#[test]
fn a_builder_is_drained_into_execution_data() {
    let payer = Arc::new(Keypair::new());
    let key = key_of(&payer);
    let mut builder = TransactionBuilder::limited(payer.clone());
    for size in [500usize, 500, 900] {
        builder
            .add_instruction_with_description(instruction(key, size), format!("{} bytes", size))
            .unwrap();
        builder.finish_instruction_pack();
    }
    builder.add_instruction(instruction(key, 100)).unwrap();
    let combined =
        builder_to_execution_data("rpc".to_string(), &mut builder, None, policy(2), false);
    assert!(builder.is_empty());
    assert_eq!(combined.len(), 2);
    assert_eq!(combined[0].prepared_transaction.transaction.instructions().len(), 2);
    assert_eq!(combined[1].prepared_transaction.transaction.instructions().len(), 2);
    assert_eq!(
        combined[0].prepared_transaction.single_description(),
        Some("#0: 500 bytes\n#1: 500 bytes".to_string())
    );
    assert_eq!(
        combined[1].prepared_transaction.single_description(),
        Some("#0: 900 bytes".to_string())
    );
    assert_eq!(combined[1].priority_fee_policy.len(), 2);
    assert!(builder_to_execution_data("rpc".to_string(), &mut builder, None, policy(2), false).is_empty());
    assert!(
        builder_to_execution_data("rpc".to_string(), &mut builder, Some(policy(2)), policy(1), true)
            .is_empty()
    );
}

#[test]
fn an_error_is_rendered_on_one_line() {
    let error = TransactionBuilderExecutionError::new(
        anyhow::Error::msg("inner").context("outer"),
        "uuid".to_string(),
        3,
        "what happened".to_string(),
    );
    assert_eq!(
        error.to_string(),
        "TransactionBuilderExecutionError: tx_uuid: uuid, human_index: 3, description: what happened, cause: outer"
    );
    assert_eq!(error.format_with_cause("given"), "TransactionBuilderExecutionError: tx_uuid: uuid, human_index: 3, description: what happened, cause: given");
    assert_eq!(error.source().to_string(), "outer");
    let mut errors = TransactionBuilderExecutionErrors::new();
    assert_eq!(errors.to_string(), "TransactionBuilderExecutionErrors:");
    assert!(errors.source().is_none());
    errors.add_error_instance(error);
    assert_eq!(errors.len(), 1);
    assert!(!errors.is_empty());
    assert_eq!(errors.source().unwrap().tx_uuid, "uuid");
}

#[test]
fn a_batch_is_simulated_under_the_second_tier_or_not_at_all() {
    let mut data = batch(2);
    let plan = simulation_plan(&data).unwrap();
    assert_eq!(plan.len(), 2);
    assert_eq!(plan[0].micro_lamports_per_cu, 1_000);
    assert_eq!(plan[1], data[1].priority_fee_policy.configuration(1).unwrap());
    data[1].priority_fee_policy = policy(1);
    assert_eq!(simulation_plan(&data), None);
    assert_eq!(simulation_plan(&[]), Some(vec![]));
}

#[test]
fn a_copy_of_execution_data_keeps_the_descriptions() {
    let payer = Arc::new(Keypair::new());
    let mut builder = TransactionBuilder::limited(payer.clone());
    builder
        .add_instruction_with_description(instruction(key_of(&payer), 10), "told".to_string())
        .unwrap();
    builder.add_instruction(instruction(key_of(&payer), 10)).unwrap();
    let data = builder_to_execution_data("rpc".to_string(), &mut builder, None, policy(1), true);
    let copy = data[0].clone();
    assert_eq!(
        copy.prepared_transaction.instruction_descriptions,
        vec![Some("told".to_string()), None]
    );
    assert_eq!(copy.prepared_transaction.single_description(), Some("#0: told".to_string()));
    assert!(copy.build(solana_sdk::hash::Hash::new_unique()).is_ok());
}

#[test]
fn renderings_carry_the_message_of_the_cause() {
    let error = TransactionBuilderExecutionError::new(
        anyhow::Error::msg("boom"),
        "u-1".to_string(),
        2,
        "d".to_string(),
    );
    assert_eq!(error.cause.to_string(), "boom");
    assert_eq!(
        error.to_string(),
        "TransactionBuilderExecutionError: tx_uuid: u-1, human_index: 2, description: d, cause: boom"
    );
    let mut errors = TransactionBuilderExecutionErrors::new();
    errors.add_error(anyhow::Error::msg("boom"), "u-1".to_string(), 2, "d".to_string());
    assert_eq!(
        errors.to_string(),
        "TransactionBuilderExecutionErrors:\nTransactionBuilderExecutionError: tx_uuid: u-1, human_index: 2, description: d, cause: boom"
    );
    assert_eq!(
        solana_transaction_builder::error::render_listing(&vec!["one".to_string(), "two".to_string()]),
        "TransactionBuilderExecutionErrors:\none\ntwo"
    );
}
