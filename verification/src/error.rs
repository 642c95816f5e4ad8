//! Errors of a batch execution, one entry per failed transaction.

use vstd::prelude::*;
use vstd::string::StringExecFns;
use crate::text::{append_decimal, decimal};

verus! {

/// The error of `anyhow`, which carries the cause of a failed execution; the
/// proofs see nothing inside it.
#[verifier::external_type_specification]
#[verifier::external_body]
pub struct ExAnyhowError(anyhow::Error);

/// The message of an error: what the outermost error says of itself.
pub uninterp spec fn cause_text(cause: anyhow::Error) -> Seq<char>;

/// `Display` of `anyhow::Error`: the message of the outermost error.
#[verifier::external_body]
fn cause_message(cause: &anyhow::Error) -> (message: String)
    ensures
        message@ == cause_text(*cause),
{
    format!("{}", cause)
}

/// The failure of one transaction of a batch.
#[derive(Debug)]
pub struct TransactionBuilderExecutionError {
    pub cause: anyhow::Error,
    pub tx_uuid: String,
    pub human_index: usize,
    pub description: String,
}

impl TransactionBuilderExecutionError {
    pub fn new(cause: anyhow::Error, tx_uuid: String, human_index: usize, description: String) -> (error: Self)
        ensures
            error.cause == cause,
            error.tx_uuid == tx_uuid,
            error.human_index == human_index,
            error.description == description,
    {
        TransactionBuilderExecutionError { cause, tx_uuid, human_index, description }
    }

    /// The one-line rendering of this error around a given rendering of its cause.
    pub open spec fn display_text(&self, cause: Seq<char>) -> Seq<char> {
        "TransactionBuilderExecutionError: tx_uuid: "@ + self.tx_uuid@ + ", human_index: "@
            + decimal(self.human_index as nat) + ", description: "@ + self.description@
            + ", cause: "@ + cause
    }

    /// Renders the error on one line, with `cause` as the text of its cause.
    pub fn format_with_cause(&self, cause: &str) -> (line: String)
        ensures
            line@ == self.display_text(cause@),
    {
        let mut line = String::from_str("TransactionBuilderExecutionError: tx_uuid: ");
        line.append(self.tx_uuid.as_str());
        line.append(", human_index: ");
        append_decimal(&mut line, self.human_index);
        line.append(", description: ");
        line.append(self.description.as_str());
        line.append(", cause: ");
        line.append(cause);
        line
    }

    /// The one-line rendering of this error, with the message of its cause.
    pub open spec fn rendered(&self) -> Seq<char> {
        self.display_text(cause_text(self.cause))
    }

    /// Renders the error on one line, with the message of its cause.
    pub fn to_string(&self) -> (line: String)
        ensures
            line@ == self.rendered(),
    {
        let cause = cause_message(&self.cause);
        self.format_with_cause(cause.as_str())
    }

    /// The underlying failure.
    pub fn source(&self) -> (cause: &anyhow::Error)
        ensures
            *cause == self.cause,
    {
        &self.cause
    }
}

/// The failures of a batch, in the order in which they were recorded.
#[derive(Debug)]
pub struct TransactionBuilderExecutionErrors {
    errors: Vec<TransactionBuilderExecutionError>,
}

impl View for TransactionBuilderExecutionErrors {
    type V = Seq<TransactionBuilderExecutionError>;

    closed spec fn view(&self) -> Seq<TransactionBuilderExecutionError> {
        self.errors@
    }
}

/// The heading, and after it each of the first `n` lines on a line of its own.
pub open spec fn listing_of(lines: Seq<Seq<char>>, n: nat) -> Seq<char>
    decreases n,
{
    if n == 0 {
        "TransactionBuilderExecutionErrors:"@
    } else {
        listing_of(lines, (n - 1) as nat) + "\n"@ + lines[n - 1]
    }
}

/// The texts of the lines.
pub open spec fn line_texts(lines: Seq<String>) -> Seq<Seq<char>> {
    Seq::new(lines.len(), |i: int| lines[i]@)
}

/// The listing of the errors: the heading, and one line per error in their order.
pub open spec fn listing_text(errors: Seq<TransactionBuilderExecutionError>) -> Seq<char> {
    listing_of(Seq::new(errors.len(), |i: int| errors[i].rendered()), errors.len())
}

/// Writes the heading and after it each line on a line of its own.
pub fn render_listing(lines: &Vec<String>) -> (text: String)
    ensures
        text@ == listing_of(line_texts(lines@), lines@.len()),
{
    let mut text = String::from_str("TransactionBuilderExecutionErrors:");
    let mut i: usize = 0;
    while i < lines.len()
        invariant
            i <= lines.len(),
            text@ == listing_of(line_texts(lines@), i as nat),
        decreases lines.len() - i,
    {
        text.append("\n");
        text.append(lines[i].as_str());
        i += 1;
    }
    text
}

impl TransactionBuilderExecutionErrors {
    pub fn new() -> (errors: Self)
        ensures
            errors@ == Seq::<TransactionBuilderExecutionError>::empty(),
    {
        TransactionBuilderExecutionErrors { errors: Vec::new() }
    }

    pub fn add_error_instance(&mut self, error: TransactionBuilderExecutionError)
        ensures
            final(self)@ == old(self)@.push(error),
    {
        self.errors.push(error);
    }

    pub fn add_error(
        &mut self,
        cause: anyhow::Error,
        tx_uuid: String,
        human_index: usize,
        description: String,
    )
        ensures
            final(self)@ == old(self)@.push(
                (TransactionBuilderExecutionError { cause, tx_uuid, human_index, description }),
            ),
    {
        self.errors.push(TransactionBuilderExecutionError::new(cause, tx_uuid, human_index, description));
    }

    pub fn len(&self) -> (len: usize)
        ensures
            len == self@.len(),
    {
        self.errors.len()
    }

    pub fn is_empty(&self) -> (empty: bool)
        ensures
            empty == (self@.len() == 0),
    {
        self.errors.is_empty()
    }

    /// The recorded errors, oldest first.
    pub fn iter(&self) -> (errors: &Vec<TransactionBuilderExecutionError>)
        ensures
            errors@ == self@,
    {
        &self.errors
    }

    /// Gives up the collection for its errors, oldest first.
    pub fn into_iter(self) -> (errors: Vec<TransactionBuilderExecutionError>)
        ensures
            errors@ == self@,
    {
        self.errors
    }

    /// The first recorded error, which stands as the cause of the whole.
    pub fn source(&self) -> (first: Option<&TransactionBuilderExecutionError>)
        ensures
            self@.len() == 0 ==> first is None,
            self@.len() > 0 ==> first == Some(&self@[0]),
    {
        if self.errors.len() == 0 {
            None
        } else {
            Some(&self.errors[0])
        }
    }

    /// Renders the heading and then one line per error.
    pub fn to_string(&self) -> (text: String)
        ensures
            text@ == listing_text(self@),
    {
        let mut lines: Vec<String> = Vec::new();
        let mut i: usize = 0;
        while i < self.errors.len()
            invariant
                i <= self.errors.len(),
                lines@.len() == i,
                forall|j: int| 0 <= j < i ==> (#[trigger] lines@[j])@ == self@[j].rendered(),
            decreases self.errors.len() - i,
        {
            lines.push(self.errors[i].to_string());
            i += 1;
        }
        assert(line_texts(lines@) =~= Seq::new(self@.len(), |i: int| self@[i].rendered()));
        render_listing(&lines)
    }
}

} // verus!
