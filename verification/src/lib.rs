//! Packing, signing and batch execution of Solana transactions.
//!
//! Instructions are admitted one at a time into packs under a size budget, packs
//! are emitted as prepared transactions with the key pairs of their signers, and
//! the outcomes of their execution are collected into structured errors.

pub mod builder_executor;
pub mod error;
pub mod instruction;
pub mod keypair;
pub mod message;
pub mod packing;
pub mod prepared_transaction;
pub mod pubkey;
pub mod signature_builder;
pub mod text;
pub mod transaction;
pub mod transaction_builder;
pub mod transaction_instruction;

pub use builder_executor::{
    builder_to_execution_data, parallel_execution_limit, simulation_plan, BatchExecution, BatchMode,
    PriorityFeeConfiguration, PriorityFeePolicy, TransactionBuilderExecutionData,
    EXECUTOR_BATCH_LIMIT, EXECUTOR_CHANNEL_DEPTH, PARALLEL_EXECUTION_LIMIT,
};
pub use error::{TransactionBuilderExecutionError, TransactionBuilderExecutionErrors};
pub use instruction::{AccountMeta, Instruction};
pub use keypair::{Signature, SigningError};
pub use packing::DescribedInstruction;
pub use prepared_transaction::{PreparedTransaction, SignedTransaction};
pub use pubkey::Pubkey;
pub use signature_builder::SignatureBuilder;
pub use transaction::UnsignedTransaction;
pub use transaction_builder::{
    CombinedSequence, Sequence, TransactionBuildError, TransactionBuilder,
};
pub use transaction_instruction::{
    base64_blocks, CodecError, TransactionAccount, TransactionInstruction,
};
