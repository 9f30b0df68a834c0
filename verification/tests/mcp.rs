use norma::error::NormaError;
use norma::mcp::{checklist, register_failure, ToolFailure};
use norma::pattern_store::RegisterPatternError;

#[test]
fn an_invalid_rule_is_answered_as_invalid_params_and_a_storage_failure_as_internal() {
    assert_eq!(
        register_failure(&RegisterPatternError::InvalidRule(NormaError::MissingRuleId)),
        ToolFailure::InvalidParams("rule YAML must set a non-empty top-level `id`".to_string())
    );
    assert_eq!(
        register_failure(&RegisterPatternError::Storage("disk full".to_string())),
        ToolFailure::Internal("disk full".to_string())
    );
}

#[test]
fn a_checklist_without_patterns_warns_about_coverage() {
    let empty = checklist("go", vec![]);
    assert!(empty.patterns.is_empty());
    assert_eq!(
        empty.coverage_warning.as_deref(),
        Some("no enabled patterns are registered for language \"go\"")
    );
    let rule = "id: x\nmessage: m\nseverity: warning\nlanguage: Python\nrule:\n  pattern: print($$$A)\n";
    let now = norma::models::Timestamp { unix_seconds: 0, nanoseconds: 0 };
    let p = norma::models::Pattern::from_rule(
        "n".to_string(), "d".to_string(), None, rule.to_string(), true, now, now,
    )
    .unwrap();
    let full = checklist("python", vec![p.clone()]);
    assert_eq!(full.patterns, vec![p]);
    assert_eq!(full.coverage_warning, None);
}
