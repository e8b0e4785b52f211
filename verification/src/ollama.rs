//! Plain data shapes for the inference-endpoint wire contract: the request
//! sent to the endpoint, its outer reply envelope, and the structured issue
//! list the model is asked to produce.

use vstd::prelude::*;

verus! {

/// A request to the inference endpoint: a model identifier, the full
/// prompt, the requested reply format, and the streaming flag.
pub struct OllamaRequest {
    pub model: String,
    pub prompt: String,
    pub format: String,
    pub stream: bool,
}

/// The endpoint's outer reply envelope: one free-text field holding the
/// model's answer.
pub struct OllamaApiResponse {
    pub response: String,
}

/// One problem the model reports: a 1-based line, a 0-based column, and a
/// free-form message.
pub struct GrammarIssue {
    pub line: u32,
    pub column: u32,
    pub message: String,
}

/// The structured reply the model is instructed to produce: an ordered
/// list of issues.
pub struct OllamaResponse {
    pub issues: Vec<GrammarIssue>,
}

/// The mathematical value of a [`GrammarIssue`]: the same fields with the
/// message as a character sequence.
pub ghost struct IssueView {
    pub line: u32,
    pub column: u32,
    pub message: Seq<char>,
}

impl View for GrammarIssue {
    type V = IssueView;

    open spec fn view(&self) -> IssueView {
        IssueView { line: self.line, column: self.column, message: self.message@ }
    }
}

impl View for OllamaResponse {
    type V = Seq<IssueView>;

    open spec fn view(&self) -> Seq<IssueView> {
        self.issues@.map_values(|g: GrammarIssue| g@)
    }
}

} // verus!
