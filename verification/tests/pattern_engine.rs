use ast_grep_language::SupportLang;
use norma::models::{Pattern, Score, Severity, Timestamp};
use norma::pattern_engine::{
    apply_fixes, language_key, parse_rule, parse_rules, resolve_language, supported_languages,
    test_rule, validate, NO_COVERAGE_PATTERN_ID,
};

fn now() -> Timestamp {
    Timestamp { unix_seconds: 1_700_000_000, nanoseconds: 0 }
}

/// The floating-point score a `Score` stands for.
fn score(s: Score) -> f64 {
    1.0 - s.deducted as f64 / s.out_of as f64
}

fn test_pattern(rule: &str) -> Pattern {
    Pattern::from_rule(
        "Test Pattern".to_string(),
        "test".to_string(),
        None,
        rule.to_string(),
        true,
        now(),
        now(),
    )
    .expect("test fixture rule must be valid")
}

const RUST_NO_DEBUG_PRINT: &str = r#"
id: no-debug-print-rust
message: Avoid println! in production code
severity: warning
language: Rust
rule:
  pattern: println!($$$ARGS)
"#;

const RULE_WITHOUT_ID: &str = r#"
message: Avoid println! in production code
severity: warning
language: Rust
rule:
  pattern: println!($$$ARGS)
"#;

const GO_RULE: &str = r#"
id: no-debug-print-go
message: Avoid fmt.Println in production code
severity: warning
language: Go
rule:
  pattern: fmt.Println($$$ARGS)
"#;

const GO_RULE_WITH_WORKING_PATTERN: &str = r#"
id: no-debug-print-go-working
message: Avoid fmt.Println in production code
severity: warning
language: Go
rule:
  pattern:
    context: "func _() { fmt.Println($$$ARGS) }"
    selector: call_expression
"#;

const COBOL_RULE: &str = r#"
id: no-debug-print-cobol
message: Avoid DISPLAY in production code
severity: warning
language: Cobol
rule:
  pattern: DISPLAY $$$ARGS
"#;

#[test]
fn from_rule_derives_id_language_and_severity() {
    let pattern = test_pattern(RUST_NO_DEBUG_PRINT);
    assert_eq!(pattern.id(), "no-debug-print-rust");
    assert_eq!(pattern.language(), "rust");
    assert_eq!(pattern.severity(), Severity::Warning);
}

#[test]
fn from_rule_rejects_a_rule_with_no_id() {
    let err = Pattern::from_rule(
        "No Id".to_string(),
        "d".to_string(),
        None,
        RULE_WITHOUT_ID.to_string(),
        true,
        now(),
        now(),
    )
    .expect_err("a rule with no top-level id must be rejected");
    assert!(err.message().contains("non-empty"), "unexpected error: {}", err.message());
}

#[test]
fn from_rule_accepts_a_previously_unsupported_language() {
    let pattern = test_pattern(GO_RULE);
    assert_eq!(pattern.language(), "go");
}

#[test]
fn from_rule_rejects_a_language_ast_grep_does_not_support() {
    let err = Pattern::from_rule(
        "No Debug Print".to_string(),
        "d".to_string(),
        None,
        COBOL_RULE.to_string(),
        true,
        now(),
        now(),
    )
    .expect_err("a language ast-grep-language itself doesn't know must still be rejected");
    let chain = err.chain_text();
    assert!(
        chain.contains("Cobol"),
        "expected the error chain to name the rejected language, got: {chain}"
    );
}

#[test]
fn validate_finds_a_real_violation() {
    let pattern = test_pattern(RUST_NO_DEBUG_PRINT);
    let source = "fn main() { println!(\"debug\"); }";
    let result = validate(source, "rust", &[pattern]).unwrap();
    assert_eq!(result.violations.len(), 1);
    assert!(!result.passed);
    assert_eq!(result.violations[0].matched_text, "println!(\"debug\")");
    assert_eq!(result.checked_patterns, 1);
}

#[test]
fn validate_finds_a_real_violation_in_a_previously_unsupported_language() {
    let pattern = test_pattern(GO_RULE_WITH_WORKING_PATTERN);
    let source = "package main\n\nimport \"fmt\"\n\nfunc main() {\n\tfmt.Println(\"debug\")\n}\n";
    let result = validate(source, "go", &[pattern]).unwrap();
    assert_eq!(result.violations.len(), 1);
    assert!(!result.passed);
    assert_eq!(result.violations[0].matched_text, "fmt.Println(\"debug\")");
    assert_eq!(result.checked_patterns, 1);
}

#[test]
fn validate_reports_no_violations_for_clean_code() {
    let pattern = test_pattern(RUST_NO_DEBUG_PRINT);
    let source = "fn main() { tracing::info!(\"structured, fine\"); }";
    let result = validate(source, "rust", &[pattern]).unwrap();
    assert!(result.violations.is_empty());
    assert!(result.passed);
    assert_eq!(score(result.score), 1.0);
    assert_eq!(result.checked_patterns, 1);
}

#[test]
fn validate_reports_degraded_coverage_instead_of_a_silent_pass_when_nothing_is_registered() {
    let pattern = test_pattern(RUST_NO_DEBUG_PRINT);
    let source = "println!(\"debug\")";
    let result = validate(source, "python", &[pattern]).unwrap();
    assert_eq!(result.checked_patterns, 0);
    assert!(!result.passed);
    assert_eq!(score(result.score), 0.0);
    assert_eq!(result.violations.len(), 1);
    assert_eq!(result.violations[0].pattern_id, NO_COVERAGE_PATTERN_ID);
    assert_eq!(result.violations[0].severity, Severity::Warning);
    assert!(result.violations[0].message.contains("python"));
}

fn broken_pattern() -> Pattern {
    Pattern::from_trusted_row(
        "was-valid-once".to_string(),
        "Was Valid Once".to_string(),
        "d".to_string(),
        None,
        "rust".to_string(),
        Severity::Warning,
        "not: valid: yaml: at: all: -".to_string(),
        true,
        now(),
        now(),
    )
}

#[test]
fn validate_reports_a_skipped_pattern_instead_of_silently_dropping_it() {
    let result = validate("fn main() {}", "rust", &[broken_pattern()]).unwrap();
    assert_eq!(result.checked_patterns, 0);
    assert!(!result.passed);
    assert_eq!(result.violations.len(), 1);
    assert_eq!(result.violations[0].pattern_id, "was-valid-once");
    assert!(result.violations[0].message.contains("could not be parsed"));
}

const RUST_NO_UNWRAP: &str = r#"
id: no-unwrap-rust
message: Avoid unwrap() in production code
severity: warning
language: Rust
rule:
  pattern: $EXPR.unwrap()
"#;

#[test]
fn validate_score_reflects_a_partial_hit_rate() {
    let debug_print = test_pattern(RUST_NO_DEBUG_PRINT);
    let no_unwrap = test_pattern(RUST_NO_UNWRAP);
    let source = "fn main() { println!(\"debug\"); }";
    let result = validate(source, "rust", &[debug_print, no_unwrap]).unwrap();
    assert_eq!(result.checked_patterns, 2);
    assert_eq!(
        result
            .violations
            .iter()
            .filter(|v| v.pattern_id == "no-debug-print-rust")
            .count(),
        1
    );
    assert_eq!(score(result.score), 0.5);
}

#[test]
fn validate_score_never_goes_negative_when_one_pattern_matches_many_times() {
    let pattern = test_pattern(RUST_NO_DEBUG_PRINT);
    let source = "fn main() { println!(\"a\"); println!(\"b\"); println!(\"c\"); }";
    let result = validate(source, "rust", &[pattern]).unwrap();
    assert_eq!(result.checked_patterns, 1);
    assert_eq!(result.violations.len(), 3);
    assert_eq!(score(result.score), 0.0);
}

#[test]
fn parse_rule_rejects_malformed_yaml() {
    assert!(parse_rule("not: valid: yaml: at: all: -").is_err());
}

#[test]
fn parse_rules_returns_every_document_in_a_multi_document_yaml() {
    let two_rules = format!("{RUST_NO_DEBUG_PRINT}---\n{RUST_NO_UNWRAP}");
    let configs = parse_rules(&two_rules).unwrap();
    assert_eq!(configs.len(), 2);
    assert_eq!(configs[0].id, "no-debug-print-rust");
    assert_eq!(configs[1].id, "no-unwrap-rust");
}

#[test]
fn parse_rule_keeps_only_the_first_document_of_a_multi_document_yaml() {
    let two_rules = format!("{RUST_NO_DEBUG_PRINT}---\n{RUST_NO_UNWRAP}");
    let config = parse_rule(&two_rules).unwrap();
    assert_eq!(config.id, "no-debug-print-rust");
}

#[test]
fn language_key_covers_every_ast_grep_language() {
    assert_eq!(language_key(&SupportLang::Rust.to_string()).as_deref(), Some("rust"));
    assert_eq!(language_key(&SupportLang::Go.to_string()).as_deref(), Some("go"));
    assert_eq!(language_key(&SupportLang::Css.to_string()).as_deref(), Some("css"));
    for &lang in SupportLang::all_langs() {
        assert!(
            language_key(&lang.to_string()).is_some(),
            "{lang:?} has no canonical key"
        );
    }
}

#[test]
fn supported_languages_covers_every_ast_grep_language() {
    assert_eq!(supported_languages().len(), SupportLang::all_langs().len());
}

#[test]
fn resolve_language_accepts_canonical_keys_and_ast_grep_aliases() {
    assert_eq!(resolve_language("rust").unwrap(), "rust");
    assert_eq!(resolve_language("rs").unwrap(), "rust");
    assert_eq!(resolve_language("ts").unwrap(), "typescript");
    assert_eq!(resolve_language("Java").unwrap(), "java");
}

#[test]
fn resolve_language_rejects_unsupported_and_misspelled_languages() {
    assert!(resolve_language("cobol").is_err());
    assert!(resolve_language("rustt").is_err());
}

#[test]
fn resolve_language_accepts_every_ast_grep_language() {
    assert_eq!(resolve_language("go").unwrap(), "go");
    assert_eq!(resolve_language("golang").unwrap(), "go");
    assert_eq!(resolve_language("Go").unwrap(), "go");
    assert_eq!(resolve_language("GOLANG").unwrap(), "go");
}

#[test]
fn every_supported_key_resolves_to_itself() {
    for key in supported_languages() {
        assert_eq!(resolve_language(&key).unwrap(), key);
    }
}

#[test]
fn an_unsupported_language_is_refused_with_the_supported_list() {
    let err = resolve_language("cobol").unwrap_err();
    let message = err.message();
    assert!(message.starts_with("unsupported language: \"cobol\" (norma supports: "), "{message}");
    assert!(message.contains("rust"), "{message}");
    assert!(message.ends_with(')'), "{message}");
}

#[test]
fn validate_errors_instead_of_falsely_passing_an_unsupported_language() {
    let pattern = test_pattern(RUST_NO_DEBUG_PRINT);
    let err = validate("package main", "cobol", &[pattern]).unwrap_err();
    assert!(
        err.message().contains("unsupported language"),
        "unexpected error: {}",
        err.message()
    );
}

const RUST_OBSERVER_PRESENCE_INFO: &str = r#"
id: observer-presence-rust
message: Struct has an observers-style field -- an Observer-shaped construct
severity: info
language: Rust
rule:
  kind: struct_item
  has:
    stopBy: end
    kind: field_declaration
    regex: observers
"#;

#[test]
fn validate_info_severity_match_is_visible_but_does_not_fail_the_run() {
    let pattern = test_pattern(RUST_OBSERVER_PRESENCE_INFO);
    let source = "struct Publisher { observers: Vec<Box<dyn Observer>> }";
    let result = validate(source, "rust", &[pattern]).unwrap();
    assert_eq!(result.violations.len(), 1, "the match must still be visible");
    assert_eq!(result.violations[0].severity, Severity::Info);
    assert!(result.passed, "an info-severity match must not fail the run");
    assert_eq!(score(result.score), 1.0, "an info-severity match must not lower the score");
}

const RUST_UNWRAP_WITH_FIX: &str = r#"
id: no-unwrap-rust
message: Avoid unwrap() in production code
severity: warning
language: Rust
rule:
  pattern: $EXPR.unwrap()
fix: $EXPR.expect("TODO")
"#;

#[test]
fn validate_populates_suggested_fix_when_the_rule_has_a_fix() {
    let pattern = test_pattern(RUST_UNWRAP_WITH_FIX);
    let source = "fn main() { value.unwrap(); }";
    let result = validate(source, "rust", &[pattern]).unwrap();
    assert_eq!(result.violations.len(), 1);
    assert_eq!(
        result.violations[0].suggested_fix.as_deref(),
        Some(r#"value.expect("TODO")"#)
    );
}

#[test]
fn validate_leaves_suggested_fix_none_when_the_rule_has_no_fix() {
    let pattern = test_pattern(RUST_NO_DEBUG_PRINT);
    let source = "fn main() { println!(\"debug\"); }";
    let result = validate(source, "rust", &[pattern]).unwrap();
    assert_eq!(result.violations.len(), 1);
    assert_eq!(result.violations[0].suggested_fix, None);
}

#[test]
fn validate_reports_one_based_lines_through_zero_based_locations() {
    let pattern = test_pattern(RUST_NO_DEBUG_PRINT);
    let source = "fn main() {\n    println!(\"debug\");\n}";
    let result = validate(source, "rust", &[pattern]).unwrap();
    assert_eq!(result.violations[0].location.line, 1);
    assert_eq!(result.violations[0].location.column, 4);
}

#[test]
fn test_rule_finds_a_real_violation() {
    let result = test_rule(RUST_NO_DEBUG_PRINT, "fn main() { println!(\"debug\"); }").unwrap();
    assert_eq!(result.violations.len(), 1);
    assert!(!result.passed);
    assert_eq!(result.violations[0].pattern_id, "no-debug-print-rust");
    assert_eq!(result.violations[0].matched_text, "println!(\"debug\")");
    assert_eq!(result.checked_patterns, 1);
}

#[test]
fn test_rule_reports_no_violations_for_clean_code() {
    let result = test_rule(RUST_NO_DEBUG_PRINT, "fn main() {}").unwrap();
    assert!(result.violations.is_empty());
    assert!(result.passed);
    assert_eq!(score(result.score), 1.0);
    assert_eq!(result.checked_patterns, 1);
}

#[test]
fn test_rule_info_severity_match_is_visible_but_does_not_fail_the_run() {
    let source = "struct Publisher { observers: Vec<Box<dyn Observer>> }";
    let result = test_rule(RUST_OBSERVER_PRESENCE_INFO, source).unwrap();
    assert_eq!(result.violations.len(), 1, "the match must still be visible");
    assert_eq!(result.violations[0].severity, Severity::Info);
    assert!(result.passed, "an info-severity match must not fail the run");
    assert_eq!(score(result.score), 1.0, "an info-severity match must not lower the score");
}

#[test]
fn test_rule_score_never_goes_negative_when_the_rule_matches_many_times() {
    let source = "fn main() { println!(\"a\"); println!(\"b\"); println!(\"c\"); }";
    let result = test_rule(RUST_NO_DEBUG_PRINT, source).unwrap();
    assert_eq!(result.checked_patterns, 1);
    assert_eq!(result.violations.len(), 3);
    assert_eq!(score(result.score), 0.0);
}

#[test]
fn test_rule_populates_suggested_fix_when_the_rule_has_a_fix() {
    let result = test_rule(RUST_UNWRAP_WITH_FIX, "fn main() { value.unwrap(); }").unwrap();
    assert_eq!(result.violations.len(), 1);
    assert_eq!(
        result.violations[0].suggested_fix.as_deref(),
        Some(r#"value.expect("TODO")"#)
    );
}

#[test]
fn test_rule_rejects_malformed_yaml() {
    let err = test_rule("not: valid: yaml: at: all: -", "fn main() {}").unwrap_err();
    assert!(!err.message().is_empty());
}

#[test]
fn test_rule_rejects_a_rule_with_no_id() {
    let err = test_rule(RULE_WITHOUT_ID, "fn main() {}").unwrap_err();
    assert!(err.message().contains("non-empty"), "unexpected error: {}", err.message());
}

#[test]
fn test_rule_accepts_a_previously_unsupported_language() {
    let result = test_rule(GO_RULE, "package main").unwrap();
    assert!(result.passed);
}

#[test]
fn test_rule_rejects_a_language_ast_grep_does_not_support() {
    let err = test_rule(COBOL_RULE, "PROGRAM-ID. MAIN.").unwrap_err();
    let chain = err.chain_text();
    assert!(
        chain.contains("Cobol"),
        "expected the error chain to name the rejected language, got: {chain}"
    );
}

#[test]
fn test_rule_and_from_rule_agree_on_every_rule_shape() {
    fn from_rule_accepts(rule: &str) -> bool {
        Pattern::from_rule(
            "n".to_string(),
            "d".to_string(),
            None,
            rule.to_string(),
            true,
            now(),
            now(),
        )
        .is_ok()
    }

    for (rule, source) in [
        (RUST_NO_DEBUG_PRINT, "fn main() {}"),
        (RULE_WITHOUT_ID, "fn main() {}"),
        (GO_RULE, "package main"),
        (COBOL_RULE, "PROGRAM-ID. MAIN."),
    ] {
        assert_eq!(
            test_rule(rule, source).is_ok(),
            from_rule_accepts(rule),
            "test_rule and Pattern::from_rule disagree on: {rule}"
        );
    }
}

#[test]
fn apply_fixes_rewrites_a_single_match_in_place() {
    let pattern = test_pattern(RUST_UNWRAP_WITH_FIX);
    let source = "fn main() { value.unwrap(); }";
    let fix = apply_fixes(source, "rust", &[pattern]).unwrap();
    assert_eq!(fix.fixed_source, r#"fn main() { value.expect("TODO"); }"#);
    assert_eq!(fix.applied_count, 1);
    assert!(fix.conflicts.is_empty());
}

#[test]
fn apply_fixes_rewrites_several_non_overlapping_matches() {
    let pattern = test_pattern(RUST_UNWRAP_WITH_FIX);
    let source = "fn main() { a.unwrap(); b.unwrap(); }";
    let fix = apply_fixes(source, "rust", &[pattern]).unwrap();
    assert_eq!(fix.fixed_source, r#"fn main() { a.expect("TODO"); b.expect("TODO"); }"#);
    assert_eq!(fix.applied_count, 2);
    assert!(fix.conflicts.is_empty());
}

#[test]
fn apply_fixes_skips_patterns_and_matches_without_a_fix() {
    let unwrap_pattern = test_pattern(RUST_UNWRAP_WITH_FIX);
    let debug_print_pattern = test_pattern(RUST_NO_DEBUG_PRINT);
    let source = "fn main() { println!(\"debug\"); value.unwrap(); }";
    let fix = apply_fixes(source, "rust", &[unwrap_pattern, debug_print_pattern]).unwrap();
    assert_eq!(
        fix.fixed_source,
        "fn main() { println!(\"debug\"); value.expect(\"TODO\"); }"
    );
    assert_eq!(fix.applied_count, 1);
}

#[test]
fn apply_fixes_leaves_unfixable_source_unchanged() {
    let pattern = test_pattern(RUST_NO_DEBUG_PRINT);
    let source = "fn main() { println!(\"debug\"); }";
    let fix = apply_fixes(source, "rust", &[pattern]).unwrap();
    assert_eq!(fix.fixed_source, source);
    assert_eq!(fix.applied_count, 0);
    assert!(fix.conflicts.is_empty());
}

fn fix_pattern(name: &str, rule: &str) -> Pattern {
    Pattern::from_rule(
        name.to_string(),
        "d".to_string(),
        None,
        rule.to_string(),
        true,
        now(),
        now(),
    )
    .unwrap()
}

#[test]
fn apply_fixes_applies_neither_side_of_an_overlapping_conflict() {
    let pattern_a = fix_pattern(
        "Unwrap Fix A",
        r#"
id: unwrap-fix-a
message: a
severity: warning
language: Rust
rule:
  pattern: $EXPR.unwrap()
fix: $EXPR.expect("a")
"#,
    );
    let pattern_b = fix_pattern(
        "Unwrap Fix B",
        r#"
id: unwrap-fix-b
message: b
severity: warning
language: Rust
rule:
  pattern: $EXPR.unwrap()
fix: $EXPR.expect("b")
"#,
    );
    let source = "fn main() { value.unwrap(); }";

    let fix = apply_fixes(source, "rust", &[pattern_a, pattern_b]).unwrap();

    assert_eq!(fix.fixed_source, source, "conflicting fixes must not apply");
    assert_eq!(fix.applied_count, 0);
    assert_eq!(fix.conflicts.len(), 1);
    let mut ids = fix.conflicts[0].pattern_ids.clone();
    ids.sort();
    assert_eq!(ids, vec!["unwrap-fix-a".to_string(), "unwrap-fix-b".to_string()]);
}

#[test]
fn apply_fixes_applies_a_chain_of_three_mutually_overlapping_patterns_as_one_cluster() {
    let pattern_a = fix_pattern(
        "Call Fix",
        r#"
id: call-fix
message: a
severity: warning
language: Rust
rule:
  pattern: outer($ARG, extra)
fix: renamed($ARG, extra)
"#,
    );
    let pattern_b = fix_pattern(
        "Arg Fix",
        r#"
id: arg-fix
message: b
severity: warning
language: Rust
rule:
  pattern: value
fix: renamed_value
"#,
    );
    let pattern_c = fix_pattern(
        "Ident Fix",
        r#"
id: ident-fix
message: c
severity: warning
language: Rust
rule:
  kind: identifier
  regex: "^value$"
fix: renamed_value_c
"#,
    );
    let source = "fn main() { outer(value, extra); }";

    let fix = apply_fixes(source, "rust", &[pattern_a, pattern_b, pattern_c]).unwrap();

    assert_eq!(fix.fixed_source, source, "a chained cluster must apply nothing");
    assert_eq!(fix.applied_count, 0);
    assert_eq!(
        fix.conflicts.len(),
        1,
        "three mutually-touching ranges must be one cluster, not several pairwise conflicts"
    );
    let mut ids = fix.conflicts[0].pattern_ids.clone();
    ids.sort();
    assert_eq!(
        ids,
        vec!["arg-fix".to_string(), "call-fix".to_string(), "ident-fix".to_string()]
    );
}

#[test]
fn apply_fixes_applies_only_the_outermost_match_of_a_self_nested_pattern() {
    let pattern = test_pattern(RUST_UNWRAP_WITH_FIX);
    let source = "fn main() { a.unwrap().unwrap(); }";

    let fix = apply_fixes(source, "rust", &[pattern]).unwrap();

    assert!(
        fix.conflicts.is_empty(),
        "a pattern matching its own nested output is not a conflict: {:?}",
        fix.conflicts
    );
    assert_eq!(fix.applied_count, 1, "only the outermost match is applied");
    assert_eq!(
        fix.fixed_source, r#"fn main() { a.unwrap().expect("TODO"); }"#,
        "the still-nested inner unwrap() is left for a follow-up --fix pass"
    );
}

#[test]
fn apply_fixes_reports_a_pattern_whose_stored_rule_no_longer_parses() {
    let good = test_pattern(RUST_UNWRAP_WITH_FIX);
    let fix = apply_fixes("fn main() { value.unwrap(); }", "rust", &[good, broken_pattern()]).unwrap();
    assert_eq!(fix.applied_count, 1, "the still-valid pattern must still be applied");
    assert_eq!(fix.skipped_rules.len(), 1);
    assert_eq!(fix.skipped_rules[0].0, "was-valid-once");
}

const RUST_FIX_WITH_LOCAL_REWRITER: &str = r#"
id: wrap-debug-rust
message: Wrap wrap()'s inner call, renaming it via a local rewriter
severity: warning
language: Rust
rule:
  pattern: wrap($INNER)
transform:
  REWRITTEN:
    rewrite:
      rewriters: [rename-foo-to-bar]
      source: $INNER
fix: wrap($REWRITTEN)
rewriters:
  - id: rename-foo-to-bar
    rule:
      pattern: foo($$$ARGS)
    fix: bar($$$ARGS)
"#;

#[test]
fn apply_fixes_resolves_a_fix_that_uses_a_locally_embedded_rewriter() {
    let pattern = test_pattern(RUST_FIX_WITH_LOCAL_REWRITER);
    let source = "fn main() { wrap(foo(1, 2)); }";
    let fix = apply_fixes(source, "rust", &[pattern]).unwrap();
    assert_eq!(fix.fixed_source, "fn main() { wrap(bar(1, 2)); }");
    assert_eq!(fix.applied_count, 1);
}

#[test]
fn apply_fixes_errors_instead_of_falsely_no_opping_an_unsupported_language() {
    let pattern = test_pattern(RUST_UNWRAP_WITH_FIX);
    let err = apply_fixes("package main", "cobol", &[pattern]).unwrap_err();
    assert!(
        err.message().contains("unsupported language"),
        "unexpected error: {}",
        err.message()
    );
}

#[test]
fn apply_fixes_ignores_disabled_patterns_and_other_languages() {
    let mut disabled = test_pattern(RUST_UNWRAP_WITH_FIX);
    disabled.enabled = false;
    let source = "fn main() { value.unwrap(); }";
    let fix = apply_fixes(source, "rust", &[disabled]).unwrap();
    assert_eq!(fix.fixed_source, source);
    assert_eq!(fix.applied_count, 0);
    let fix = apply_fixes(source, "go", &[test_pattern(RUST_UNWRAP_WITH_FIX)]).unwrap();
    assert_eq!(fix.fixed_source, source);
}

#[test]
fn validate_reports_the_same_with_or_without_unselected_patterns() {
    let source = "fn main() { println!(\"debug\"); }";
    let mut disabled = test_pattern(RUST_NO_UNWRAP);
    disabled.enabled = false;
    let go = test_pattern(GO_RULE);
    let alone = validate(source, "rust", &[test_pattern(RUST_NO_DEBUG_PRINT)]).unwrap();
    let mixed = validate(source, "rust", &[disabled, test_pattern(RUST_NO_DEBUG_PRINT), go]).unwrap();
    assert_eq!(alone.violations, mixed.violations);
    assert_eq!(alone.checked_patterns, mixed.checked_patterns);
    assert_eq!(alone.score, mixed.score);
    assert_eq!(alone.passed, mixed.passed);
}

#[test]
fn resolving_ignores_ascii_case() {
    for alias in ["rust", "RUST", "Rust", "rS", "Rs"] {
        assert_eq!(resolve_language(alias).unwrap(), "rust");
    }
}

#[test]
fn every_resolved_key_is_a_supported_language() {
    let keys = supported_languages();
    for alias in ["rs", "ts", "Java", "golang", "py"] {
        let key = resolve_language(alias).unwrap();
        assert!(keys.contains(&key), "{key}");
    }
}

#[test]
fn conflicts_name_distinct_ids_of_fixing_patterns() {
    let a = fix_pattern("A", "id: fix-a\nmessage: a\nseverity: warning\nlanguage: Rust\nrule:\n  pattern: $E.unwrap()\nfix: $E.expect(\"a\")\n");
    let b = fix_pattern("B", "id: fix-b\nmessage: b\nseverity: warning\nlanguage: Rust\nrule:\n  pattern: $E.unwrap()\nfix: $E.expect(\"b\")\n");
    let fix = apply_fixes("fn main() { x.unwrap(); y.unwrap(); }", "rust", &[a, b]).unwrap();
    assert_eq!(fix.conflicts.len(), 2);
    for c in &fix.conflicts {
        let mut ids = c.pattern_ids.clone();
        ids.sort();
        ids.dedup();
        assert_eq!(ids.len(), c.pattern_ids.len());
        assert!(c.pattern_ids.iter().all(|id| id == "fix-a" || id == "fix-b"));
    }
    assert_eq!(fix.fixed_source, "fn main() { x.unwrap(); y.unwrap(); }");
}

#[test]
fn the_supported_keys_are_ast_grep_languages_lowercased_in_order() {
    let keys = supported_languages();
    let expected: Vec<String> =
        SupportLang::all_langs().iter().map(|l| l.to_string().to_lowercase()).collect();
    assert_eq!(keys, expected);
    assert_eq!(keys.len(), 28);
}

#[test]
fn every_listed_alias_resolves_to_its_language_in_any_ascii_case() {
    let table: &[(&str, &[&str])] = &[
        ("bash", &["bash"]),
        ("c", &["c"]),
        ("cpp", &["cc", "c++", "cpp", "cxx"]),
        ("csharp", &["cs", "csharp"]),
        ("css", &["css"]),
        ("dart", &["dart"]),
        ("elixir", &["ex", "elixir"]),
        ("go", &["go", "golang"]),
        ("haskell", &["hs", "haskell"]),
        ("hcl", &["hcl"]),
        ("html", &["html"]),
        ("java", &["java"]),
        ("javascript", &["javascript", "js", "jsx"]),
        ("json", &["json"]),
        ("kotlin", &["kotlin", "kt"]),
        ("lua", &["lua"]),
        ("markdown", &["markdown", "md"]),
        ("nix", &["nix"]),
        ("php", &["php"]),
        ("python", &["py", "python"]),
        ("ruby", &["rb", "ruby"]),
        ("rust", &["rs", "rust"]),
        ("scala", &["scala"]),
        ("solidity", &["sol", "solidity"]),
        ("swift", &["swift"]),
        ("tsx", &["tsx"]),
        ("typescript", &["ts", "typescript"]),
        ("yaml", &["yaml", "yml"]),
    ];
    assert_eq!(supported_languages(), table.iter().map(|(k, _)| k.to_string()).collect::<Vec<_>>());
    for (key, aliases) in table {
        for alias in *aliases {
            assert_eq!(resolve_language(alias).unwrap(), *key);
            assert_eq!(resolve_language(&alias.to_uppercase()).unwrap(), *key);
        }
    }
    assert!(resolve_language("rustt").is_err());
}
