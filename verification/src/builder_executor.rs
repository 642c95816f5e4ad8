//! Execution of prepared transactions: what is handed to the executor, and what
//! is made of its outcomes.

use vstd::prelude::*;
use vstd::string::StringExecFns;
use solana_sdk::signer::SignerError;
use solana_sdk::transaction::VersionedTransaction;
use crate::error::TransactionBuilderExecutionErrors;
use crate::packing::description_texts;
use crate::prepared_transaction::{versioned_as, PreparedTransaction, SignedTransaction};
use crate::transaction::{signers_match, versioned_message_data, versioned_signatures};
use crate::text::{append_decimal, decimal};
use crate::transaction_builder::TransactionBuilder;

verus! {

/// How many transactions of a batch are executed at once unless the caller says
/// otherwise.
pub const PARALLEL_EXECUTION_LIMIT: usize = 30;

/// How many batches wait in the channel of a spawned executor.
pub const EXECUTOR_CHANNEL_DEPTH: usize = 2;

/// How many batches a spawned executor works on at once.
pub const EXECUTOR_BATCH_LIMIT: usize = 4;

/// `Uuid::new_v4`, then its `Display`: a random identifier in the hyphenated
/// form, which has 36 characters.
#[verifier::external_body]
fn new_uuid() -> (id: String)
    ensures
        id@.len() == 36,
{
    uuid::Uuid::new_v4().to_string()
}

/// `Debug` of `anyhow::Error`: the error with the chain of its causes.
#[verifier::external_body]
fn cause_report(cause: &anyhow::Error) -> (report: String)
{
    format!("{:?}", cause)
}

/// One step of a priority fee escalation: the price of a compute unit in
/// micro-lamports and the compute unit limit.
#[derive(Clone, Copy, Debug, PartialEq, Eq)]
pub struct PriorityFeeConfiguration {
    pub micro_lamports_per_cu: u64,
    pub compute_unit_limit: u32,
}

/// The priority fee configurations to try, in the order of escalation; there is at
/// least one.
#[derive(Debug)]
pub struct PriorityFeePolicy {
    configurations: Vec<PriorityFeeConfiguration>,
}

impl View for PriorityFeePolicy {
    type V = Seq<PriorityFeeConfiguration>;

    closed spec fn view(&self) -> Seq<PriorityFeeConfiguration> {
        self.configurations@
    }
}

impl PriorityFeePolicy {
    /// A policy is never empty.
    #[verifier::type_invariant]
    pub open spec fn wf(&self) -> bool {
        self@.len() >= 1
    }

    /// The policy of these configurations, unless there is none.
    pub fn new(configurations: Vec<PriorityFeeConfiguration>) -> (policy: Option<Self>)
        ensures
            match policy {
                Some(made) => configurations@.len() >= 1 && made@ == configurations@,
                None => configurations@.len() == 0,
            },
    {
        if configurations.len() == 0 {
            None
        } else {
            Some(PriorityFeePolicy { configurations })
        }
    }

    /// How many attempts the policy allows.
    pub fn len(&self) -> (len: usize)
        ensures
            len == self@.len(),
            len >= 1,
    {
        proof {
            use_type_invariant(self);
        }
        self.configurations.len()
    }

    /// The configuration of the attempt at `position`, counted from 0; nothing
    /// once the policy is exhausted.
    pub fn configuration(&self, position: usize) -> (configuration: Option<PriorityFeeConfiguration>)
        ensures
            configuration == (if position < self@.len() {
                Some(self@[position as int])
            } else {
                None
            }),
    {
        if position < self.configurations.len() {
            Some(self.configurations[position])
        } else {
            None
        }
    }

    /// The configurations in the order of escalation.
    pub fn iter_priority_fee_configuration(&self) -> (configurations: &Vec<PriorityFeeConfiguration>)
        ensures
            configurations@ == self@,
            configurations@.len() >= 1,
    {
        proof {
            use_type_invariant(self);
        }
        &self.configurations
    }

    /// The configuration under which a transaction is simulated: the second of the
    /// policy, which stands for a fee above the minimum; nothing where the policy
    /// has one configuration only.
    pub fn simulation_configuration(&self) -> (configuration: Option<PriorityFeeConfiguration>)
        ensures
            configuration == (if self@.len() >= 2 {
                Some(self@[1])
            } else {
                None
            }),
    {
        self.configuration(1)
    }
}

impl Clone for PriorityFeePolicy {
    fn clone(&self) -> (copy: Self)
        ensures
            copy@ == self@,
    {
        proof {
            use_type_invariant(self);
        }
        let mut configurations: Vec<PriorityFeeConfiguration> = Vec::new();
        let mut i: usize = 0;
        while i < self.configurations.len()
            invariant
                i <= self.configurations.len(),
                configurations@ == self.configurations@.subrange(0, i as int),
            decreases self.configurations.len() - i,
        {
            configurations.push(self.configurations[i]);
            assert(configurations@ =~= self.configurations@.subrange(0, i + 1));
            i += 1;
        }
        assert(self.configurations@.subrange(0, i as int) =~= self.configurations@);
        PriorityFeePolicy { configurations }
    }
}

/// A prepared transaction with what its execution needs: the endpoint, the fee
/// policy and an identifier for the logs.
#[derive(Debug)]
pub struct TransactionBuilderExecutionData {
    pub rpc_url: String,
    pub priority_fee_policy: PriorityFeePolicy,
    pub prepared_transaction: PreparedTransaction,
    pub tx_uuid: String,
}

impl TransactionBuilderExecutionData {
    /// The execution data of `prepared_transaction` under a fresh identifier.
    pub fn new(prepared_transaction: PreparedTransaction, rpc_url: String, priority_fee_policy: PriorityFeePolicy) -> (data:
        Self)
        ensures
            data.prepared_transaction == prepared_transaction,
            data.rpc_url == rpc_url,
            data.priority_fee_policy == priority_fee_policy,
            data.tx_uuid@.len() == 36,
    {
        Self::with_uuid(prepared_transaction, rpc_url, priority_fee_policy, new_uuid())
    }

    /// The execution data of `prepared_transaction` under the identifier `tx_uuid`.
    pub fn with_uuid(
        prepared_transaction: PreparedTransaction,
        rpc_url: String,
        priority_fee_policy: PriorityFeePolicy,
        tx_uuid: String,
    ) -> (data: Self)
        ensures
            data.prepared_transaction == prepared_transaction,
            data.rpc_url == rpc_url,
            data.priority_fee_policy == priority_fee_policy,
            data.tx_uuid == tx_uuid,
    {
        TransactionBuilderExecutionData { rpc_url, priority_fee_policy, prepared_transaction, tx_uuid }
    }

    /// How many candidates the stream of this entry yields: one per configuration
    /// of its policy.
    pub fn candidate_count(&self) -> (count: usize)
        ensures
            count == self.priority_fee_policy@.len(),
            count >= 1,
    {
        self.priority_fee_policy.len()
    }

    /// The configuration of the candidate at `position` of the stream, counted
    /// from 0; nothing once the stream has ended.
    pub fn candidate(&self, position: usize) -> (configuration: Option<PriorityFeeConfiguration>)
        ensures
            configuration == (if position < self.priority_fee_policy@.len() {
                Some(self.priority_fee_policy@[position as int])
            } else {
                None
            }),
    {
        self.priority_fee_policy.configuration(position)
    }

    /// One candidate: the transaction signed under `latest_blockhash`, in the
    /// versioned envelope, or the signer's error.
    pub fn build(&self, latest_blockhash: solana_sdk::hash::Hash) -> (candidate: Result<
        VersionedTransaction,
        SignerError,
    >)
        ensures
            versioned_as(self.prepared_transaction.signing_outcome(latest_blockhash), candidate),
            candidate is Ok <==> signers_match(
                self.prepared_transaction.transaction@.signer_keys,
                self.prepared_transaction.signers@,
            ),
            self.prepared_transaction.ready() ==> candidate is Ok,
            candidate matches Ok(made) ==> self.prepared_transaction.signs(
                latest_blockhash,
                versioned_message_data(made),
                versioned_signatures(made),
            ),
    {
        self.prepared_transaction.signed_versioned_transaction(latest_blockhash)
    }
}

impl Clone for TransactionBuilderExecutionData {
    fn clone(&self) -> (copy: Self)
        ensures
            copy.rpc_url@ == self.rpc_url@,
            copy.tx_uuid@ == self.tx_uuid@,
            copy.priority_fee_policy@ == self.priority_fee_policy@,
            copy.prepared_transaction.transaction@ == self.prepared_transaction.transaction@,
            copy.prepared_transaction.signers@ == self.prepared_transaction.signers@,
            description_texts(copy.prepared_transaction.instruction_descriptions@)
                == description_texts(self.prepared_transaction.instruction_descriptions@),
    {
        TransactionBuilderExecutionData {
            rpc_url: self.rpc_url.clone(),
            priority_fee_policy: self.priority_fee_policy.clone(),
            prepared_transaction: self.prepared_transaction.clone(),
            tx_uuid: self.tx_uuid.clone(),
        }
    }
}

/// The configuration under which each entry of a batch is simulated, in the order
/// of the entries; nothing where the policy of some entry has a single
/// configuration, so that such a batch is refused before anything is simulated.
pub fn simulation_plan(execution_data: &[TransactionBuilderExecutionData]) -> (plan: Option<
    Vec<PriorityFeeConfiguration>,
>)
    ensures
        match plan {
            Some(list) => {
                &&& list@.len() == execution_data@.len()
                &&& forall|i: int|
                    0 <= i < list@.len() ==> (#[trigger] execution_data@[i]).priority_fee_policy@.len()
                        >= 2 && list@[i] == execution_data@[i].priority_fee_policy@[1]
            },
            None => exists|i: int|
                0 <= i < execution_data@.len() && (
                #[trigger] execution_data@[i]).priority_fee_policy@.len() < 2,
        },
{
    let mut list: Vec<PriorityFeeConfiguration> = Vec::new();
    let mut i: usize = 0;
    while i < execution_data.len()
        invariant
            i <= execution_data@.len(),
            list@.len() == i,
            forall|j: int|
                0 <= j < i ==> (#[trigger] execution_data@[j]).priority_fee_policy@.len() >= 2
                    && list@[j] == execution_data@[j].priority_fee_policy@[1],
        decreases execution_data@.len() - i,
    {
        match execution_data[i].priority_fee_policy.simulation_configuration() {
            Some(configuration) => {
                list.push(configuration);
            },
            None => {
                return None;
            },
        }
        i += 1;
    }
    Some(list)
}

/// How many transactions of a batch are executed at once: the caller's bound, or
/// the default of 30.
pub fn parallel_execution_limit(requested: Option<usize>) -> (limit: usize)
    ensures
        limit == (match requested {
            Some(bound) => bound,
            None => PARALLEL_EXECUTION_LIMIT,
        }),
{
    match requested {
        Some(bound) => bound,
        None => PARALLEL_EXECUTION_LIMIT,
    }
}

/// The way in which the entries of a batch are executed.
#[derive(Clone, Copy, Debug, PartialEq, Eq)]
pub enum BatchMode {
    /// One after the other; `fail_on_first_error` ends the batch at the first
    /// failure.
    Sequential { fail_on_first_error: bool },
    /// All at once, as far as the bound on concurrency allows.
    Parallel,
}

/// The words between the identity of a failed transaction and the report of its
/// cause.
pub open spec fn failure_words(mode: BatchMode) -> Seq<char> {
    match mode {
        BatchMode::Sequential { .. } => " sequential execution failed: "@,
        BatchMode::Parallel => " failed: "@,
    }
}

/// The description of a failure: the ordinal of the transaction in its batch, its
/// identifier, and the report of the cause.
pub open spec fn failure_description(mode: BatchMode, human_index: nat, tx_uuid: Seq<char>, report: Seq<char>) -> Seq<
    char,
> {
    "Transaction "@ + decimal(human_index) + "/"@ + tx_uuid + failure_words(mode) + report
}

/// Writes the description of a failure around the report of its cause.
pub fn describe_failure(mode: BatchMode, human_index: usize, tx_uuid: &str, report: &str) -> (description: String)
    ensures
        description@ == failure_description(mode, human_index as nat, tx_uuid@, report@),
{
    let mut description = String::from_str("Transaction ");
    append_decimal(&mut description, human_index);
    description.append("/");
    description.append(tx_uuid);
    match mode {
        BatchMode::Sequential { .. } => {
            description.append(" sequential execution failed: ");
        },
        BatchMode::Parallel => {
            description.append(" failed: ");
        },
    }
    description.append(report);
    description
}

/// What a batch execution has come to: how many entries have reported, whether it
/// was ended early, and for which entries an error is recorded.
pub struct BatchProgress {
    pub mode: BatchMode,
    pub total: nat,
    pub reported: nat,
    pub stopped: bool,
    pub failed: Seq<(nat, Seq<char>)>,
}

impl BatchProgress {
    /// Whether the batch goes on: an entry is left and no failure has ended it.
    pub open spec fn awaiting(self) -> bool {
        !self.stopped && self.reported < self.total
    }

    /// The progress after the next entry, with identifier `tx_uuid`, has reported
    /// success or failure.
    pub open spec fn after(self, tx_uuid: Seq<char>, succeeded: bool) -> BatchProgress {
        if succeeded {
            BatchProgress { reported: self.reported + 1, ..self }
        } else {
            BatchProgress {
                reported: self.reported + 1,
                stopped: self.mode == (BatchMode::Sequential { fail_on_first_error: true }),
                failed: self.failed.push((self.reported + 1, tx_uuid)),
                ..self
            }
        }
    }
}

/// Whether `after` is `before` with one more error, which records the failure
/// `outcome` of the transaction with the identifier `tx_uuid` and the ordinal
/// `human_index`.
pub open spec fn records_failure(
    before: Seq<crate::error::TransactionBuilderExecutionError>,
    after: Seq<crate::error::TransactionBuilderExecutionError>,
    mode: BatchMode,
    human_index: nat,
    tx_uuid: Seq<char>,
    outcome: Result<(), anyhow::Error>,
) -> bool {
    &&& after.len() == before.len() + 1
    &&& after.drop_last() == before
    &&& Err::<(), anyhow::Error>(after.last().cause) == outcome
    &&& after.last().tx_uuid@ == tx_uuid
    &&& after.last().human_index == human_index
    &&& exists|report: Seq<char>|
        after.last().description@ == failure_description(mode, human_index, tx_uuid, report)
}

/// The course of one batch: the caller executes the entry that `next_entry` names,
/// reports its outcome, and asks again.
#[derive(Debug)]
pub struct BatchExecution {
    mode: BatchMode,
    total: usize,
    reported: usize,
    stopped: bool,
    errors: TransactionBuilderExecutionErrors,
}

impl View for BatchExecution {
    type V = BatchProgress;

    closed spec fn view(&self) -> BatchProgress {
        BatchProgress {
            mode: self.mode,
            total: self.total as nat,
            reported: self.reported as nat,
            stopped: self.stopped,
            failed: Seq::new(
                self.errors@.len(),
                |i: int| (self.errors@[i].human_index as nat, self.errors@[i].tx_uuid@),
            ),
        }
    }
}

impl BatchExecution {
    /// Never more reports than entries.
    #[verifier::type_invariant]
    closed spec fn wf(&self) -> bool {
        self.reported <= self.total
    }

    /// The errors recorded so far, oldest first.
    pub closed spec fn errors(&self) -> Seq<crate::error::TransactionBuilderExecutionError> {
        self.errors@
    }

    /// The course of a batch of `total` entries, none of which has reported.
    pub fn new(mode: BatchMode, total: usize) -> (execution: Self)
        ensures
            execution@ == (BatchProgress {
                mode,
                total: total as nat,
                reported: 0,
                stopped: false,
                failed: Seq::empty(),
            }),
            execution.errors() == Seq::<crate::error::TransactionBuilderExecutionError>::empty(),
    {
        let execution = BatchExecution {
            mode,
            total,
            reported: 0,
            stopped: false,
            errors: TransactionBuilderExecutionErrors::new(),
        };
        assert(execution@.failed =~= Seq::<(nat, Seq<char>)>::empty());
        execution
    }

    /// The position of the entry to execute next, counted from 0; nothing once
    /// every entry has reported or a failure has ended the batch.
    pub fn next_entry(&self) -> (next: Option<usize>)
        ensures
            next == (if self@.awaiting() {
                Some(self@.reported as usize)
            } else {
                None
            }),
    {
        if !self.stopped && self.reported < self.total {
            Some(self.reported)
        } else {
            None
        }
    }

    /// Takes the outcome of the entry that `next_entry` named: a failure is
    /// recorded under the entry's identifier and its ordinal, counted from 1.
    /// Without an entry to report for, nothing changes.
    pub fn report(&mut self, tx_uuid: &str, outcome: Result<(), anyhow::Error>)
        ensures
            final(self)@ == (if old(self)@.awaiting() {
                old(self)@.after(tx_uuid@, outcome is Ok)
            } else {
                old(self)@
            }),
            (old(self)@.awaiting() && outcome is Err) ==> records_failure(
                old(self).errors(),
                final(self).errors(),
                old(self)@.mode,
                old(self)@.reported + 1,
                tx_uuid@,
                outcome,
            ),
            !(old(self)@.awaiting() && outcome is Err) ==> final(self).errors() == old(self).errors(),
    {
        proof {
            use_type_invariant(&*self);
        }
        if self.stopped || self.reported >= self.total {
            return ;
        }
        let human_index = self.reported + 1;
        match outcome {
            Ok(_) => {
                self.reported = human_index;
            },
            Err(cause) => {
                let report = cause_report(&cause);
                let description = describe_failure(self.mode, human_index, tx_uuid, report.as_str());
                let mut errors = TransactionBuilderExecutionErrors::new();
                std::mem::swap(&mut errors, &mut self.errors);
                let ghost before = errors@;
                errors.add_error(cause, String::from_str(tx_uuid), human_index, description);
                assert(errors@.drop_last() =~= before);
                self.errors = errors;
                self.reported = human_index;
                match self.mode {
                    BatchMode::Sequential { fail_on_first_error } => {
                        if fail_on_first_error {
                            self.stopped = true;
                        }
                    },
                    BatchMode::Parallel => {},
                }
                assert(self@.failed =~= old(self)@.failed.push((human_index as nat, tx_uuid@)));
                assert(self.errors().last().description@ == failure_description(
                    old(self)@.mode,
                    human_index as nat,
                    tx_uuid@,
                    report@,
                ));
            },
        }
    }

    /// The result of the batch: success where no error was recorded, else the
    /// errors in the order in which they were recorded.
    pub fn finish(self) -> (result: Result<(), TransactionBuilderExecutionErrors>)
        ensures
            match result {
                Ok(_) => self.errors().len() == 0,
                Err(errors) => errors@.len() > 0 && errors@ == self.errors(),
            },
    {
        if self.errors.is_empty() {
            Ok(())
        } else {
            Err(self.errors)
        }
    }
}

/// The configurations of the policy under which a batch is executed: those of the
/// given policy, or those of the default policy where none is given.
pub open spec fn policy_or(
    priority_fee_policy: Option<PriorityFeePolicy>,
    default_policy: PriorityFeePolicy,
) -> Seq<PriorityFeeConfiguration> {
    match priority_fee_policy {
        Some(policy) => policy@,
        None => default_policy@,
    }
}

/// Drains the builder into execution data, one entry per emitted transaction in
/// the order of emission, each for the endpoint `rpc_url` and under
/// `priority_fee_policy`, or under `default_policy` where no policy is given.
pub fn builder_to_execution_data(
    rpc_url: String,
    transaction_builder: &mut TransactionBuilder,
    priority_fee_policy: Option<PriorityFeePolicy>,
    default_policy: PriorityFeePolicy,
    is_one_by_one: bool,
) -> (execution_data: Vec<TransactionBuilderExecutionData>)
    ensures
        final(transaction_builder)@ == old(transaction_builder)@.drained(),
        execution_data@.len() == old(transaction_builder)@.emission_groups(is_one_by_one).len(),
        forall|i: int|
            0 <= i < execution_data@.len() ==> {
                let entry = #[trigger] execution_data@[i];
                &&& old(transaction_builder)@.emits(
                    entry.prepared_transaction,
                    old(transaction_builder)@.emission_groups(is_one_by_one)[i],
                )
                &&& entry.rpc_url@ == rpc_url@
                &&& entry.priority_fee_policy@ == policy_or(priority_fee_policy, default_policy)
                &&& entry.tx_uuid@.len() == 36
            },
{
    let policy = match priority_fee_policy {
        Some(given) => given,
        None => default_policy,
    };
    let ghost start = transaction_builder@;
    let ghost groups = start.emission_groups(is_one_by_one);
    let mut waiting = if is_one_by_one {
        transaction_builder.sequence().collect()
    } else {
        transaction_builder.sequence_combined().collect()
    };
    let ghost emitted = waiting@;
    let mut execution_data: Vec<TransactionBuilderExecutionData> = Vec::new();
    while waiting.len() > 0
        invariant
            emitted.len() == groups.len(),
            forall|i: int| 0 <= i < emitted.len() ==> start.emits(#[trigger] emitted[i], groups[i]),
            execution_data@.len() + waiting@.len() == emitted.len(),
            waiting@ == emitted.skip(execution_data@.len() as int),
            forall|i: int|
                0 <= i < execution_data@.len() ==> {
                    let entry = #[trigger] execution_data@[i];
                    &&& entry.prepared_transaction == emitted[i]
                    &&& entry.rpc_url@ == rpc_url@
                    &&& entry.priority_fee_policy@ == policy@
                    &&& entry.tx_uuid@.len() == 36
                },
        decreases waiting@.len(),
    {
        let ghost done = execution_data@.len() as int;
        let prepared = waiting.remove(0);
        proof {
            assert(prepared == emitted[done]);
            assert(waiting@ =~= emitted.skip(done + 1));
        }
        let entry = TransactionBuilderExecutionData::new(
            prepared,
            rpc_url.clone(),
            policy.clone(),
        );
        execution_data.push(entry);
    }
    execution_data
}

} // verus!
