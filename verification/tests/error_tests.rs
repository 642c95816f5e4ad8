use solana_transaction_builder::TransactionBuilderExecutionErrors;

#[test]
fn listing_shows_one_error_per_line() {
    let mut errors = TransactionBuilderExecutionErrors::new();
    assert!(errors.is_empty());
    errors.add_error(anyhow::Error::msg("boom"), "uuid-1".to_string(), 2, "second".to_string());
    errors.add_error(anyhow::Error::msg("bang"), "uuid-2".to_string(), 13, "last".to_string());
    assert_eq!(errors.len(), 2);
    assert_eq!(
        errors.to_string(),
        "TransactionBuilderExecutionErrors:\n\
         TransactionBuilderExecutionError: tx_uuid: uuid-1, human_index: 2, description: second, cause: boom\n\
         TransactionBuilderExecutionError: tx_uuid: uuid-2, human_index: 13, description: last, cause: bang"
    );
}
