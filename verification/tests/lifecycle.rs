use grammar_lsp::backend::Backend;
use grammar_lsp::backend::Severity;
use grammar_lsp::backend::diagnostic_of_issue;
use grammar_lsp::grammar_client::prompt_prefix;
use grammar_lsp::ollama::GrammarIssue;
use grammar_lsp::ollama::OllamaApiResponse;

#[test]
fn translation_clamps_and_spans_one_character() {
    let d = diagnostic_of_issue(&GrammarIssue { line: 1, column: 0, message: "m".to_string() });
    assert_eq!((d.start_line, d.start_character, d.end_line, d.end_character), (0, 0, 0, 1));
    assert!(matches!(d.severity, Severity::Warning));
    assert_eq!(d.source, "grammar-checker");
    assert_eq!(d.message, "m");

    let d = diagnostic_of_issue(&GrammarIssue { line: 0, column: 4, message: "n".to_string() });
    assert_eq!((d.start_line, d.start_character, d.end_line, d.end_character), (0, 4, 0, 5));

    let d = diagnostic_of_issue(&GrammarIssue { line: 7, column: 2, message: "o".to_string() });
    assert_eq!((d.start_line, d.start_character, d.end_line, d.end_character), (6, 2, 6, 3));
}

#[test]
fn translation_saturates_at_largest_column() {
    let d = diagnostic_of_issue(
        &GrammarIssue { line: 1, column: u32::MAX, message: "m".to_string() },
    );
    assert_eq!(d.start_character, u32::MAX);
    assert_eq!(d.end_character, u32::MAX);
}

#[test]
fn save_on_open_document_builds_prompt() {
    let mut backend = Backend::new();
    backend.did_open("file:///a".to_string(), "Teh cat sat.".to_string());
    let req = backend.did_save_request(&"file:///a".to_string()).expect("document is open");
    assert_eq!(req.prompt, format!("{}Teh cat sat.", prompt_prefix()));
    assert_eq!(req.model, "gemma3:4b");
    assert_eq!(req.format, "json");
    assert!(!req.stream);
}

#[test]
fn scenario_open_save_publish() {
    let mut backend = Backend::new();
    backend.did_open("a".to_string(), "Teh cat sat.".to_string());
    assert!(backend.did_save_request(&"a".to_string()).is_some());
    let reply = OllamaApiResponse {
        response: r#"{"issues":[{"line":1,"column":0,"message":"Spelling: 'Teh' should be 'The'"}]}"#
            .to_string(),
    };
    let ev = backend.did_save_publish("a".to_string(), Some(reply));
    assert_eq!(ev.uri, "a");
    assert_eq!(ev.diagnostics.len(), 1);
    let d = &ev.diagnostics[0];
    assert_eq!((d.start_line, d.start_character, d.end_line, d.end_character), (0, 0, 0, 1));
    assert!(matches!(d.severity, Severity::Warning));
    assert_eq!(d.message, "Spelling: 'Teh' should be 'The'");
}

#[test]
fn scenario_empty_text_empty_issues() {
    let mut backend = Backend::new();
    backend.did_open("b".to_string(), String::new());
    assert!(backend.did_save_request(&"b".to_string()).is_some());
    let reply = OllamaApiResponse { response: r#"{"issues":[]}"#.to_string() };
    let ev = backend.did_save_publish("b".to_string(), Some(reply));
    assert_eq!(ev.uri, "b");
    assert!(ev.diagnostics.is_empty());
}

#[test]
fn scenario_save_on_unopened_document() {
    let backend = Backend::new();
    assert!(backend.did_save_request(&"c".to_string()).is_none());
}

#[test]
fn scenario_timeout_publishes_empty() {
    let mut backend = Backend::new();
    backend.did_open("d".to_string(), "text".to_string());
    let ev = backend.did_save_publish("d".to_string(), None);
    assert_eq!(ev.uri, "d");
    assert!(ev.diagnostics.is_empty());
}

#[test]
fn close_publishes_empty_and_forgets_document() {
    let mut backend = Backend::new();
    backend.did_open("e".to_string(), "text".to_string());
    let ev = backend.did_close(&"e".to_string());
    assert_eq!(ev.uri, "e");
    assert!(ev.diagnostics.is_empty());
    assert!(backend.did_save_request(&"e".to_string()).is_none());
}

#[test]
fn close_twice_is_harmless() {
    let mut backend = Backend::new();
    backend.did_open("f".to_string(), "text".to_string());
    let first = backend.did_close(&"f".to_string());
    assert!(first.diagnostics.is_empty());
    let second = backend.did_close(&"f".to_string());
    assert_eq!(second.uri, "f");
    assert!(second.diagnostics.is_empty());
}

#[test]
fn change_replaces_text_wholesale() {
    let mut backend = Backend::new();
    backend.did_open("g".to_string(), "old text".to_string());
    backend.did_change("g".to_string(), "new text".to_string());
    let req = backend.did_save_request(&"g".to_string()).expect("document is open");
    assert!(req.prompt.ends_with("new text"));
    assert!(!req.prompt.contains("old text"));
}

#[test]
fn prompt_template_matches_convention() {
    let p = prompt_prefix();
    assert!(p.starts_with(
        "You are a grammar and spelling checker. Your task is to find errors in the text below."
    ));
    assert!(p.contains("  IMPORTANT: You must respond with ONLY valid JSON in this exact format:"));
    assert!(p.contains(r#"If there are no errors, return: {"issues": []}"#));
    assert!(p.contains("  1. line numbers start at 1"));
    assert!(p.contains("  2. column numbers start at 0"));
    assert!(p.ends_with("  Text to analyze:\n  "));
}
