//! The diagnostic coordinator: turns editor lifecycle events into store
//! updates and publish events.
//!
//! The editor transport is I/O and lives in the surrounding binary.  The
//! split is explicit: a save event first asks [`Backend::did_save_request`]
//! whether there is anything to analyze (and what to send); the transport
//! performs the round trip; [`Backend::did_save_publish`] then builds the
//! publish event from the outcome.  Open, change and close are pure state
//! transitions whose publish events, if any, are returned to the caller.

use vstd::prelude::*;
use crate::grammar_client;
use crate::grammar_client::GrammarCheckProvider;
use crate::ollama::GrammarIssue;
use crate::ollama::IssueView;
use crate::ollama::OllamaApiResponse;
use crate::ollama::OllamaRequest;
use crate::store::DocStore;

verus! {

/// Diagnostic severity levels of the editor protocol.
#[derive(PartialEq, Eq, Structural, Clone, Copy, Debug)]
pub enum Severity {
    Error,
    Warning,
    Information,
    Hint,
}

/// One editor-displayable annotation: a zero-based character range, a
/// severity, a fixed source tag, and the message verbatim.
pub struct Diagnostic {
    pub start_line: u32,
    pub start_character: u32,
    pub end_line: u32,
    pub end_character: u32,
    pub severity: Severity,
    pub source: String,
    pub message: String,
}

/// The mathematical value of a [`Diagnostic`].
pub ghost struct DiagView {
    pub start_line: u32,
    pub start_character: u32,
    pub end_line: u32,
    pub end_character: u32,
    pub severity: Severity,
    pub source: Seq<char>,
    pub message: Seq<char>,
}

impl View for Diagnostic {
    type V = DiagView;

    open spec fn view(&self) -> DiagView {
        DiagView {
            start_line: self.start_line,
            start_character: self.start_character,
            end_line: self.end_line,
            end_character: self.end_character,
            severity: self.severity,
            source: self.source@,
            message: self.message@,
        }
    }
}

/// The diagnostic an issue translates to: the model's 1-based line
/// clamped to a 0-based line (a line of 0 maps to 0 rather than
/// underflowing), the column kept, a one-character span, warning
/// severity, the fixed source tag, the message verbatim.  The end column
/// saturates at the largest representable column.
pub open spec fn diag_of(iv: IssueView) -> DiagView {
    DiagView {
        start_line: if iv.line > 0 { (iv.line - 1) as u32 } else { 0 },
        start_character: iv.column,
        end_line: if iv.line > 0 { (iv.line - 1) as u32 } else { 0 },
        end_character: if iv.column < u32::MAX { (iv.column + 1) as u32 } else { u32::MAX },
        severity: Severity::Warning,
        source: "grammar-checker"@,
        message: iv.message,
    }
}

/// The diagnostics an issue list translates to, in order.
pub open spec fn diags_of(ivs: Seq<IssueView>) -> Seq<DiagView> {
    ivs.map_values(|iv: IssueView| diag_of(iv))
}

/// The views of a diagnostic list.
pub open spec fn diag_views(ds: Seq<Diagnostic>) -> Seq<DiagView> {
    ds.map_values(|d: Diagnostic| d@)
}

/// Translates one issue by the coordinate-translation rule.
pub fn diagnostic_of_issue(issue: &GrammarIssue) -> (d: Diagnostic)
    ensures
        d@ == diag_of(issue@),
{
    let line: u32 = if issue.line > 0 {
        issue.line - 1
    } else {
        0
    };
    let end_character: u32 = if issue.column < u32::MAX {
        issue.column + 1
    } else {
        u32::MAX
    };
    Diagnostic {
        start_line: line,
        start_character: issue.column,
        end_line: line,
        end_character,
        severity: Severity::Warning,
        source: "grammar-checker".to_owned(),
        message: issue.message.clone(),
    }
}

/// Translates an issue list, preserving its order.
pub fn diagnostics_of_issues(issues: &Vec<GrammarIssue>) -> (r: Vec<Diagnostic>)
    ensures
        diag_views(r@) == diags_of(crate::json::views_of(issues@)),
{
    let n = issues.len();
    let mut out: Vec<Diagnostic> = Vec::new();
    for i in 0..n
        invariant
            n == issues@.len(),
            out@.len() == i,
            forall|t: int| 0 <= t < i ==> out@[t]@ == diag_of(issues@[t]@),
    {
        out.push(diagnostic_of_issue(&issues[i]));
    }
    proof {
        assert(diag_views(out@) =~= diags_of(crate::json::views_of(issues@)));
    }
    out
}

/// One outbound publish event: the full diagnostic snapshot for a
/// document, replacing whatever was previously shown for it.
pub struct PublishEvent {
    pub uri: String,
    pub diagnostics: Vec<Diagnostic>,
}

/// The coordinator: the document store and the analysis configuration.
pub struct Backend {
    pub documents: DocStore,
    pub grammar_provider: GrammarCheckProvider,
}

impl Backend {
    /// Well-formed: the store's keys are distinct.
    pub open spec fn wf(&self) -> bool {
        self.documents.wf()
    }

    /// A coordinator with an empty store and the default analysis
    /// settings: the default model, the default endpoint URL, and the
    /// default time budget.
    pub fn new() -> (r: Backend)
        ensures
            r.wf(),
            r.documents@ == Map::<Seq<char>, Seq<char>>::empty(),
            r.grammar_provider.model@ == "gemma3:4b"@,
            r.grammar_provider.api_url@ == "http://localhost:11434/api/generate"@,
            r.grammar_provider.timeout_secs == 60,
    {
        Backend { documents: DocStore::new(), grammar_provider: GrammarCheckProvider::new() }
    }

    /// A document was opened: record its text.
    pub fn did_open(&mut self, uri: String, text: String)
        requires
            old(self).wf(),
        ensures
            final(self).wf(),
            final(self).documents@ == old(self).documents@.insert(uri@, text@),
            final(self).grammar_provider == old(self).grammar_provider,
    {
        self.documents.put(uri, text);
    }

    /// A document changed: replace its text wholesale (full sync — no
    /// partial-edit merging).
    pub fn did_change(&mut self, uri: String, text: String)
        requires
            old(self).wf(),
        ensures
            final(self).wf(),
            final(self).documents@ == old(self).documents@.insert(uri@, text@),
            final(self).grammar_provider == old(self).grammar_provider,
    {
        self.documents.put(uri, text);
    }

    /// A document was saved: the request to send to the inference
    /// endpoint, or `None` — and hence no publish event — exactly when
    /// the document was never opened (a stray save is not an error).
    pub fn did_save_request(&self, uri: &String) -> (r: Option<OllamaRequest>)
        requires
            self.wf(),
        ensures
            (r is None) <==> !self.documents@.contains_key(uri@),
            r matches Some(req) ==> {
                &&& req.prompt@ == grammar_client::prompt_prefix_spec()
                    + self.documents@[uri@]
                &&& req.model@ == self.grammar_provider.model@
                &&& req.format@ == "json"@
                &&& req.stream == false
            },
    {
        match self.documents.get(uri) {
            Some(text) => Some(self.grammar_provider.analysis_request(text.as_str())),
            None => None,
        }
    }

    /// The analysis round trip finished (or failed, or timed out:
    /// `None`): the publish event for the document — always a complete
    /// snapshot, empty when the round failed or found nothing, so that a
    /// clean document visibly becomes clean.
    pub fn did_save_publish(&self, uri: String, reply: Option<OllamaApiResponse>) -> (ev:
        PublishEvent)
        ensures
            ev.uri@ == uri@,
            diag_views(ev.diagnostics@) == diags_of(
                grammar_client::issues_of_reply(grammar_client::opt_reply_view(reply)),
            ),
            reply is None ==> ev.diagnostics@.len() == 0,
    {
        let issues = self.grammar_provider.check_grammar(reply);
        let diagnostics = diagnostics_of_issues(&issues);
        proof {
            if reply is None {
                assert(diags_of(Seq::<IssueView>::empty()) =~= Seq::<DiagView>::empty());
            }
        }
        PublishEvent { uri, diagnostics }
    }

    /// A document was closed: drop its text (idempotently — closing an
    /// unknown document is a no-op) and publish an empty snapshot so the
    /// editor clears any stale markers.  Afterwards the store no longer
    /// holds the document.
    pub fn did_close(&mut self, uri: &String) -> (ev: PublishEvent)
        requires
            old(self).wf(),
        ensures
            final(self).wf(),
            final(self).documents@ == old(self).documents@.remove(uri@),
            !final(self).documents@.contains_key(uri@),
            ev.uri@ == uri@,
            ev.diagnostics@.len() == 0,
            final(self).grammar_provider == old(self).grammar_provider,
    {
        self.documents.remove(uri);
        PublishEvent { uri: uri.clone(), diagnostics: Vec::new() }
    }
}

/// The coordinate-translation law: an issue at line `L` (1-based) and
/// column `C` becomes a diagnostic from `(max(L - 1, 0), C)` to
/// `(max(L - 1, 0), C + 1)`, with warning severity and the message
/// verbatim.  The column bound is the machine limit of the protocol's
/// column type.
pub proof fn lemma_issue_translation(iv: IssueView)
    requires
        iv.column < u32::MAX,
    ensures
        diag_of(iv).start_line == if iv.line > 0 { iv.line - 1 } else { 0 },
        diag_of(iv).end_line == diag_of(iv).start_line,
        diag_of(iv).start_character == iv.column,
        diag_of(iv).end_character == iv.column + 1,
        diag_of(iv).severity == Severity::Warning,
        diag_of(iv).message == iv.message,
{
}

/// Closing is idempotent on the store: removing a document twice leaves
/// the same state as removing it once (and `did_close` publishes an
/// empty snapshot in either case, since it has no precondition on the
/// document being present).
pub proof fn lemma_close_idempotent(m: Map<Seq<char>, Seq<char>>, id: Seq<char>)
    ensures
        m.remove(id).remove(id) == m.remove(id),
{
    assert(m.remove(id).remove(id) =~= m.remove(id));
}

} // verus!
