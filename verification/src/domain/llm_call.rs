//! The ledger of model calls.
use crate::decimal::Decimal;
use crate::domain::llm::{llm_error_text, LlmBackend, LlmError, LlmResponse, Message};
use crate::domain::market::Timestamp;
use crate::domain::secret::CredentialSource;
use crate::domain::strategy::CreatedBy;
use crate::text::{concat3, digits, usize_text};
use vstd::prelude::*;
use vstd::string::*;

verus! {

/// Identifier of a ledger entry.
#[derive(Clone, Debug, PartialEq, Eq, Hash, PartialOrd, Ord)]
pub struct LlmCallId(String);

impl View for LlmCallId {
    type V = Seq<char>;

    closed spec fn view(&self) -> Seq<char> {
        self.0@
    }
}

impl LlmCallId {
    /// Wraps an id.
    pub fn new(id: &str) -> (r: LlmCallId)
        ensures
            r@ == id@,
    {
        LlmCallId(id.to_owned())
    }

    /// The id.
    pub fn as_str(&self) -> (r: &str)
        ensures
            r@ == self@,
    {
        self.0.as_str()
    }
}

/// One call, as the ledger keeps it. Texts are kept as redacted.
#[derive(Clone, Debug, PartialEq, Eq)]
pub struct LlmCall {
    /// The id.
    pub id: LlmCallId,
    /// Where the call was sent.
    pub backend: LlmBackend,
    /// The model.
    pub model: String,
    /// The prompt.
    pub prompt_messages: Vec<Message>,
    /// The completion, if any.
    pub completion: Option<String>,
    /// Tokens of the prompt.
    pub input_tokens: u32,
    /// Tokens of the completion.
    pub output_tokens: u32,
    /// What the call cost.
    pub cost: Decimal,
    /// The currency of the cost.
    pub cost_currency: String,
    /// When the call was made.
    pub created_at: Timestamp,
    /// Who or what made it.
    pub created_by: CreatedBy,
    /// Where the credential came from, if recorded.
    pub key_source: Option<CredentialSource>,
    /// The version of the prompt, if recorded.
    pub prompt_version: Option<String>,
}

/// A response and the ledger entry of the call that gave it.
#[derive(Clone, Debug, PartialEq, Eq)]
pub struct AttributedCall {
    /// The response.
    pub response: LlmResponse,
    /// The ledger entry.
    pub llm_call_id: LlmCallId,
}

/// Why a call gave no response with a ledger entry.
#[derive(Clone, Debug, PartialEq, Eq)]
pub enum AttributedCallError {
    /// The call failed.
    Provider {
        /// Why.
        error: LlmError,
        /// The ledger entry of the attempt, if one was written.
        llm_call_id: Option<LlmCallId>,
    },
    /// A response came without a ledger entry.
    LedgerRowMissing,
    /// A response came with several ledger entries.
    LedgerRowsAmbiguous {
        /// How many.
        seen: usize,
    },
    /// Ledger entries were lost during the call.
    CaptureBufferShrank {
        /// How many there were when the call began.
        start: usize,
        /// How many there are now.
        len: usize,
    },
}

/// The text of an attribution error.
pub open spec fn attributed_error_text(e: AttributedCallError) -> Seq<char> {
    match e {
        AttributedCallError::Provider { error, .. } => llm_error_text(error),
        AttributedCallError::LedgerRowMissing =>
            "the coach turn reached the provider but captured no ledger row: the provider or the capture handle is not the one the ledger decorator writes through"@,
        AttributedCallError::LedgerRowsAmbiguous { seen } => "the coach turn captured "@ + digits(
            seen as nat,
        ) + " ledger rows; one turn is one call is one row"@,
        AttributedCallError::CaptureBufferShrank { start, len } =>
            "the capture buffer shrank during the call (was "@ + digits(start as nat) + ", now "@
            + digits(len as nat)
            + "): the ids this turn minted are gone, so no honest attribution is available"@,
    }
}

impl AttributedCallError {
    /// The text of the error.
    pub fn to_string(&self) -> (t: String)
        ensures
            t@ == attributed_error_text(*self),
    {
        match self {
            AttributedCallError::Provider { error, .. } => error.to_string(),
            AttributedCallError::LedgerRowMissing =>
                "the coach turn reached the provider but captured no ledger row: the provider or the capture handle is not the one the ledger decorator writes through".to_owned(),
            AttributedCallError::LedgerRowsAmbiguous { seen } => concat3(
                "the coach turn captured ",
                usize_text(*seen).as_str(),
                " ledger rows; one turn is one call is one row",
            ),
            AttributedCallError::CaptureBufferShrank { start, len } => {
                let mut t = concat3(
                    "the capture buffer shrank during the call (was ",
                    usize_text(*start).as_str(),
                    ", now ",
                );
                t.append(usize_text(*len).as_str());
                t.append(
                    "): the ids this turn minted are gone, so no honest attribution is available",
                );
                t
            },
        }
    }
}

} // verus!
