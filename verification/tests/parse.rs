use grammar_lsp::grammar_client::GrammarCheckProvider;
use grammar_lsp::ollama::OllamaApiResponse;

fn provider() -> GrammarCheckProvider {
    GrammarCheckProvider::new()
}

#[test]
fn provider_defaults() {
    let p = GrammarCheckProvider::new();
    assert_eq!(p.model, "gemma3:4b");
    assert_eq!(p.api_url, "http://localhost:11434/api/generate");
    assert_eq!(p.timeout_secs, 60);
    let d = GrammarCheckProvider::default();
    assert_eq!(d.model, p.model);
    assert_eq!(d.api_url, p.api_url);
    assert_eq!(d.timeout_secs, p.timeout_secs);
}

#[test]
fn round_trip_two_issues_in_order() {
    let reply = r#"{"issues":[{"line":1,"column":0,"message":"Spelling: 'Teh' should be 'The'"},{"line":3,"column":7,"message":"Grammar: 'was went' should be 'went'"}]}"#;
    let issues = provider().parse_response(reply);
    assert_eq!(issues.len(), 2);
    assert_eq!(issues[0].line, 1);
    assert_eq!(issues[0].column, 0);
    assert_eq!(issues[0].message, "Spelling: 'Teh' should be 'The'");
    assert_eq!(issues[1].line, 3);
    assert_eq!(issues[1].column, 7);
    assert_eq!(issues[1].message, "Grammar: 'was went' should be 'went'");
}

#[test]
fn round_trip_empty_array() {
    let issues = provider().parse_response(r#"{"issues":[]}"#);
    assert_eq!(issues.len(), 0);
}

#[test]
fn degrade_on_plain_prose() {
    let issues = provider().parse_response("Sorry, I cannot help.");
    assert_eq!(issues.len(), 0);
}

#[test]
fn degrade_on_missing_issues_key() {
    let issues = provider().parse_response(r#"{"problems":[]}"#);
    assert_eq!(issues.len(), 0);
}

#[test]
fn degrade_on_wrong_issues_type() {
    let issues = provider().parse_response(r#"{"issues":"none"}"#);
    assert_eq!(issues.len(), 0);
}

#[test]
fn degrade_on_missing_field_in_issue() {
    let issues = provider().parse_response(r#"{"issues":[{"line":1,"column":2}]}"#);
    assert_eq!(issues.len(), 0);
}

#[test]
fn degrade_on_duplicate_field() {
    let issues =
        provider().parse_response(r#"{"issues":[{"line":1,"line":2,"column":0,"message":"m"}]}"#);
    assert_eq!(issues.len(), 0);
}

#[test]
fn degrade_on_trailing_text() {
    let issues = provider().parse_response(r#"{"issues":[]} extra"#);
    assert_eq!(issues.len(), 0);
}

#[test]
fn degrade_on_negative_number() {
    let issues =
        provider().parse_response(r#"{"issues":[{"line":-1,"column":0,"message":"m"}]}"#);
    assert_eq!(issues.len(), 0);
}

#[test]
fn degrade_on_fractional_number() {
    let issues =
        provider().parse_response(r#"{"issues":[{"line":1.5,"column":0,"message":"m"}]}"#);
    assert_eq!(issues.len(), 0);
}

#[test]
fn degrade_on_leading_zero() {
    let issues =
        provider().parse_response(r#"{"issues":[{"line":01,"column":0,"message":"m"}]}"#);
    assert_eq!(issues.len(), 0);
}

#[test]
fn degrade_on_number_past_u32() {
    let issues = provider()
        .parse_response(r#"{"issues":[{"line":4294967296,"column":0,"message":"m"}]}"#);
    assert_eq!(issues.len(), 0);
}

#[test]
fn largest_column_is_kept() {
    let issues = provider()
        .parse_response(r#"{"issues":[{"line":1,"column":4294967295,"message":"m"}]}"#);
    assert_eq!(issues.len(), 1);
    assert_eq!(issues[0].column, u32::MAX);
}

#[test]
fn unknown_fields_are_ignored() {
    let reply = r#"
        { "model": "x", "meta": { "nested": [1, 2, {"a": true}], "flag": null },
          "issues": [ { "line": 2, "column": 3, "message": "m", "hint": [false, -1.5e3] } ],
          "after": "y" }
    "#;
    let issues = provider().parse_response(reply);
    assert_eq!(issues.len(), 1);
    assert_eq!(issues[0].line, 2);
    assert_eq!(issues[0].column, 3);
    assert_eq!(issues[0].message, "m");
}

#[test]
fn whitespace_is_tolerated() {
    let reply = "  {\n\t\"issues\" : [ { \"line\" : 1 , \"column\" : 0 , \"message\" : \"m\" } ]\n}  ";
    let issues = provider().parse_response(reply);
    assert_eq!(issues.len(), 1);
    assert_eq!(issues[0].message, "m");
}

#[test]
fn escapes_in_message_are_decoded() {
    let reply = r#"{"issues":[{"line":1,"column":0,"message":"a\"b\\c\ndAe"}]}"#;
    let issues = provider().parse_response(reply);
    assert_eq!(issues.len(), 1);
    assert_eq!(issues[0].message, "a\"b\\c\ndAe");
}

#[test]
fn unicode_escape_is_decoded() {
    let reply = r#"{"issues":[{"line":1,"column":0,"message":"x\u0041\u00e9y"}]}"#;
    let issues = provider().parse_response(reply);
    assert_eq!(issues.len(), 1);
    assert_eq!(issues[0].message, "xA\u{e9}y");
}

#[test]
fn lone_high_surrogate_escape_is_rejected() {
    let reply = r#"{"issues":[{"line":1,"column":0,"message":"x\ud800y"}]}"#;
    let issues = provider().parse_response(reply);
    assert_eq!(issues.len(), 0);
}

#[test]
fn lone_low_surrogate_escape_is_rejected() {
    let reply = r#"{"issues":[{"line":1,"column":0,"message":"x\udc00y"}]}"#;
    let issues = provider().parse_response(reply);
    assert_eq!(issues.len(), 0);
}

#[test]
fn surrogate_pair_is_combined() {
    let reply = r#"{"issues":[{"line":1,"column":0,"message":"x\ud83d\ude00y"}]}"#;
    let issues = provider().parse_response(reply);
    assert_eq!(issues.len(), 1);
    assert_eq!(issues[0].message, "x\u{1F600}y");
}

#[test]
fn conformance_tells_rejected_from_clean() {
    let p = provider();
    assert!(p.reply_conforms(r#"{"issues":[]}"#));
    assert!(p.reply_conforms(r#"{"issues":[{"line":1,"column":0,"message":"m"}]}"#));
    assert!(!p.reply_conforms("Sorry, I cannot help."));
    assert!(!p.reply_conforms(r#"{"issues":[{"line":1,"column":0,"message":"x\ud800y"}]}"#));
}

#[test]
fn line_zero_is_accepted_by_parser() {
    let issues =
        provider().parse_response(r#"{"issues":[{"line":0,"column":4,"message":"m"}]}"#);
    assert_eq!(issues.len(), 1);
    assert_eq!(issues[0].line, 0);
}

#[test]
fn failed_transport_yields_empty() {
    let issues = provider().check_grammar(None);
    assert_eq!(issues.len(), 0);
}

#[test]
fn reply_envelope_is_unwrapped() {
    let envelope = OllamaApiResponse {
        response: r#"{"issues":[{"line":5,"column":1,"message":"m"}]}"#.to_string(),
    };
    let issues = provider().check_grammar(Some(envelope));
    assert_eq!(issues.len(), 1);
    assert_eq!(issues[0].line, 5);
}
