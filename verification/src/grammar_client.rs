//! The analysis client: builds the deterministic prompt for the inference
//! endpoint, builds the request record, and parses the endpoint's reply
//! into an ordered issue list.
//!
//! The HTTP round trip itself is I/O and lives in the surrounding binary;
//! it hands the reply envelope (or `None`, on a timeout or any transport
//! failure) back to [`GrammarCheckProvider::check_grammar`].  Every
//! failure mode degrades to an empty issue list — a broken backend must
//! never break the editor.

use vstd::prelude::*;
use vstd::string::StringExecFns;
use crate::json;
use crate::ollama::GrammarIssue;
use crate::ollama::IssueView;
use crate::ollama::OllamaApiResponse;
use crate::ollama::OllamaRequest;

verus! {

/// The fixed instruction template; the document text is appended to it
/// verbatim.
pub open spec fn prompt_prefix_spec() -> Seq<char> {
    "You are a grammar and spelling checker. Your task is to find errors in the text below.\n\n  IMPORTANT: You must respond with ONLY valid JSON in this exact format:\n  {\n    \"issues\": [\n      {\"line\": 1, \"column\": 5, \"message\": \"Spelling: 'teh' should be 'the'\"},\n      {\"line\": 2, \"column\": 10, \"message\": \"Grammar: 'was went' should be 'went'\"}\n    ]\n  }\n\n  If there are no errors, return: {\"issues\": []}\n\n  Rules:\n  1. line numbers start at 1\n  2. column numbers start at 0\n  3. message format: \"<error type>: '<incorrect>' should be '<correct>'\"\n  4. error types: \"Spelling\" or \"Grammar\"\n  5. Do NOT include explanations, only the JSON object\n\n  Text to analyze:\n  "@
}

/// The instruction template as text.
pub fn prompt_prefix() -> (r: &'static str)
    ensures
        r@ == prompt_prefix_spec(),
{
    "You are a grammar and spelling checker. Your task is to find errors in the text below.\n\n  IMPORTANT: You must respond with ONLY valid JSON in this exact format:\n  {\n    \"issues\": [\n      {\"line\": 1, \"column\": 5, \"message\": \"Spelling: 'teh' should be 'the'\"},\n      {\"line\": 2, \"column\": 10, \"message\": \"Grammar: 'was went' should be 'went'\"}\n    ]\n  }\n\n  If there are no errors, return: {\"issues\": []}\n\n  Rules:\n  1. line numbers start at 1\n  2. column numbers start at 0\n  3. message format: \"<error type>: '<incorrect>' should be '<correct>'\"\n  4. error types: \"Spelling\" or \"Grammar\"\n  5. Do NOT include explanations, only the JSON object\n\n  Text to analyze:\n  "
}

/// The issue list a reply text denotes: what the grammar accepts, or the
/// empty list when the text does not conform to it.
pub open spec fn issues_of_text(s: Seq<char>) -> Seq<IssueView> {
    match json::parse_envelope(s) {
        Some(issues) => issues,
        None => Seq::empty(),
    }
}

/// The issue list of a whole analysis round: `None` stands for a timeout
/// or transport failure and yields the empty list.
pub open spec fn issues_of_reply(reply: Option<Seq<char>>) -> Seq<IssueView> {
    match reply {
        Some(s) => issues_of_text(s),
        None => Seq::empty(),
    }
}

/// The reply text carried by an envelope, if one arrived.
pub open spec fn opt_reply_view(reply: Option<OllamaApiResponse>) -> Option<Seq<char>> {
    match reply {
        Some(a) => Some(a.response@),
        None => None,
    }
}

/// Grammar checking configuration for the inference endpoint: the model
/// identifier, the endpoint URL, and the request time budget in seconds.
pub struct GrammarCheckProvider {
    pub model: String,
    pub api_url: String,
    pub timeout_secs: u64,
}

impl GrammarCheckProvider {
    /// A provider with the default settings.
    pub fn new() -> (r: GrammarCheckProvider)
        ensures
            r.model@ == "gemma3:4b"@,
            r.api_url@ == "http://localhost:11434/api/generate"@,
            r.timeout_secs == 60,
    {
        GrammarCheckProvider {
            model: "gemma3:4b".to_owned(),
            api_url: "http://localhost:11434/api/generate".to_owned(),
            timeout_secs: 60,
        }
    }

    /// The prompt for a document: the fixed template with the text
    /// appended verbatim.
    pub fn build_prompt(&self, text: &str) -> (r: String)
        ensures
            r@ == prompt_prefix_spec() + text@,
    {
        let mut p: String = prompt_prefix().to_owned();
        p.append(text);
        p
    }

    /// The request record for a prompt: this provider's model, the given
    /// prompt, a JSON-formatted non-streaming reply.
    pub fn build_request(&self, prompt: String) -> (r: OllamaRequest)
        ensures
            r.model@ == self.model@,
            r.prompt@ == prompt@,
            r.format@ == "json"@,
            r.stream == false,
    {
        OllamaRequest {
            model: self.model.clone(),
            prompt,
            format: "json".to_owned(),
            stream: false,
        }
    }

    /// The complete request for a document text.
    pub fn analysis_request(&self, text: &str) -> (r: OllamaRequest)
        ensures
            r.model@ == self.model@,
            r.prompt@ == prompt_prefix_spec() + text@,
            r.format@ == "json"@,
            r.stream == false,
    {
        let prompt = self.build_prompt(text);
        self.build_request(prompt)
    }

    /// Parses the model's reply text: the issues it denotes under the
    /// reply grammar, or the empty list if it does not conform — the
    /// model's output is untrusted and a malformed reply must degrade to
    /// silence, never to a failure.
    pub fn parse_response(&self, response_text: &str) -> (r: Vec<GrammarIssue>)
        ensures
            json::views_of(r@) == issues_of_text(response_text@),
    {
        let cs = json::chars_of(response_text);
        match json::parse_envelope_exec(&cs) {
            Some(v) => v,
            None => {
                let empty: Vec<GrammarIssue> = Vec::new();
                proof {
                    assert(json::views_of(empty@) =~= Seq::<IssueView>::empty());
                }
                empty
            },
        }
    }

    /// Whether a reply text conforms to the reply grammar.  The analysis
    /// result never depends on this — a non-conforming reply yields the
    /// empty list — but a caller can use it to tell a rejected reply from
    /// a clean one and report the raw text for diagnosis.
    pub fn reply_conforms(&self, response_text: &str) -> (r: bool)
        ensures
            r == (json::parse_envelope(response_text@) is Some),
    {
        let cs = json::chars_of(response_text);
        json::parse_envelope_exec(&cs).is_some()
    }

    /// Finishes one analysis round, given the transport's outcome:
    /// `None` for a timeout or any transport failure.  Never fails
    /// outward; every failure mode yields the empty list.
    pub fn check_grammar(&self, reply: Option<OllamaApiResponse>) -> (r: Vec<GrammarIssue>)
        ensures
            json::views_of(r@) == issues_of_reply(opt_reply_view(reply)),
            reply is None ==> r@.len() == 0,
    {
        match reply {
            Some(envelope) => self.parse_response(envelope.response.as_str()),
            None => {
                let empty: Vec<GrammarIssue> = Vec::new();
                proof {
                    assert(json::views_of(empty@) =~= Seq::<IssueView>::empty());
                }
                empty
            },
        }
    }
}

impl Default for GrammarCheckProvider {
    /// The default provider: the same settings as [`GrammarCheckProvider::new`].
    fn default() -> (r: GrammarCheckProvider)
        ensures
            r.model@ == "gemma3:4b"@,
            r.api_url@ == "http://localhost:11434/api/generate"@,
            r.timeout_secs == 60,
    {
        GrammarCheckProvider::new()
    }
}

/// A well-formed reply is returned intact: when the reply text conforms
/// to the grammar and denotes an issue list, the analysis round yields
/// exactly those issues, in order, with fields unchanged.
pub proof fn lemma_reply_round_trip(s: Seq<char>, issues: Seq<IssueView>)
    requires
        json::parse_envelope(s) == Some(issues),
    ensures
        issues_of_reply(Some(s)) == issues,
{
}

/// Every issue list has a well-formed reply: the canonical rendering of
/// any issue list comes back from the analysis round exactly, in order,
/// with fields unchanged.
pub proof fn lemma_canonical_reply_round_trip(issues: Seq<IssueView>)
    ensures
        issues_of_reply(Some(json::render_envelope(issues))) == issues,
{
    json::lemma_render_round_trip(issues);
}

/// Degrade to empty: a reply text the grammar rejects — including one
/// that is not JSON at all — yields the empty issue list, not a failure.
pub proof fn lemma_degrade_to_empty(s: Seq<char>)
    requires
        json::parse_envelope(s) is None,
    ensures
        issues_of_reply(Some(s)) == Seq::<IssueView>::empty(),
{
}

/// A timed-out or failed transport round yields the empty issue list.
pub proof fn lemma_failure_yields_empty()
    ensures
        issues_of_reply(None) == Seq::<IssueView>::empty(),
{
}

} // verus!
