use norma::error::NormaError;
use norma::pattern_engine::{parse_rule, parse_rules};

#[test]
fn an_empty_rule_yaml_is_refused_by_ast_grep() {
    match parse_rules("") {
        Err(NormaError::InvalidRule(e)) => assert!(!e.message.is_empty()),
        other => panic!("expected an invalid rule, got {other:?}"),
    }
    assert!(parse_rule("").is_err());
    assert_eq!(
        NormaError::NoRuleDocument.message(),
        "rule YAML did not contain a RuleConfig document"
    );
}

#[test]
fn every_error_has_a_one_line_message() {
    assert_eq!(
        NormaError::MissingRuleId.message(),
        "rule YAML must set a non-empty top-level `id`"
    );
    assert_eq!(
        NormaError::FixOutOfRange.message(),
        "apply_fixes got a fix outside the source; refusing it"
    );
    assert_eq!(
        NormaError::NonUtf8Output.message(),
        "apply_fixes produced non-UTF-8 output; refusing it"
    );
    assert_eq!(
        NormaError::InvalidYaml { message: "bad".to_string() }.message(),
        "bad"
    );
    let m = NormaError::UnsupportedRuleLanguage { language: "Cobol".to_string() }.message();
    assert!(m.starts_with("unsupported language: Cobol (norma supports: "), "{m}");
    assert!(m.contains("java, ") || m.contains(", java"), "{m}");
    assert!(m.ends_with(')'), "{m}");
    assert!(!m.contains('\n'));
}

#[test]
fn the_chain_joins_the_causes_after_the_message() {
    let e = NormaError::InvalidRule(norma::ast_grep::RuleError {
        message: "Fail to parse yaml as RuleConfig".to_string(),
        causes: vec!["language: Cobol is not supported".to_string(), "inner".to_string()],
    });
    assert_eq!(e.message(), "Fail to parse yaml as RuleConfig");
    assert_eq!(
        e.chain_text(),
        "Fail to parse yaml as RuleConfig: language: Cobol is not supported: inner"
    );
    assert_eq!(NormaError::MissingRuleId.chain_text(), NormaError::MissingRuleId.message());
}
