use norma::default_patterns;
use norma::error::NormaError;
use norma::models::{Severity, Timestamp};
use norma::pattern_store::{
    import_document, import_documents, import_plan, pattern_row, registration, row_to_pattern, seed_candidate,
    split_yaml_documents, ImportResult, ImportStep, RegisterPatternError, SkippedRule,
};

fn now() -> Timestamp {
    Timestamp { unix_seconds: 1_700_000_000, nanoseconds: 0 }
}

const RUST_RULE: &str = r#"
id: no-debug-print-rust
message: Avoid println! in production code
severity: warning
language: Rust
rule:
  pattern: println!($$$ARGS)
"#;

const GO_RULE: &str = r#"
id: no-debug-print-go
message: Avoid fmt.Println in production code
severity: warning
language: Go
rule:
  pattern: fmt.Println($$$ARGS)
"#;

const COBOL_RULE: &str = r#"
id: no-debug-print-cobol
message: Avoid DISPLAY in production code
severity: warning
language: Cobol
rule:
  pattern: DISPLAY $$$ARGS
"#;

const RULE_WITHOUT_ID: &str = r#"
message: Avoid println! in production code
severity: warning
language: Rust
rule:
  pattern: println!($$$ARGS)
"#;

const NOT_A_RULE_DOCUMENT: &str = r#"
ruleDirs:
  - rules
"#;

/// A bulk import's decisions, without a store.
fn import(yaml: &str, category: Option<String>) -> Result<ImportResult, RegisterPatternError> {
    import_plan(yaml, category, now())
}

#[test]
fn the_plan_records_each_document_as_its_own_decision_says() {
    let yaml = format!("{RUST_RULE}---\n{COBOL_RULE}");
    let mut by_hand = ImportResult::new();
    for doc in import_documents(&yaml).unwrap() {
        by_hand.record(import_document(doc, None, now()));
    }
    assert_eq!(import(&yaml, None).unwrap(), by_hand);
}

#[test]
fn split_yaml_documents_surfaces_a_genuine_yaml_syntax_error() {
    let err = split_yaml_documents("not: valid: yaml: at: all: -").unwrap_err();
    assert!(!err.is_empty());
}

#[test]
fn split_yaml_documents_does_not_mistake_a_literal_dashes_line_inside_a_block_scalar_for_a_document_boundary(
) {
    let rule_with_dashes_in_a_block_scalar = r#"
id: has-a-dashes-line-in-its-fix
message: contains a literal --- inside an indented block scalar
severity: warning
language: Rust
rule:
  pattern: println!($$$ARGS)
fix: |
  // ---
  // not a document separator
"#;
    let docs = split_yaml_documents(rule_with_dashes_in_a_block_scalar).unwrap();
    assert_eq!(docs.len(), 1, "the indented --- must stay inside the one document");
    assert_eq!(docs[0].id.as_deref(), Some("has-a-dashes-line-in-its-fix"));
}

#[test]
fn import_result_fully_succeeded_is_false_only_when_something_was_skipped() {
    let ok = ImportResult { imported: vec![], skipped: vec![] };
    assert!(ok.fully_succeeded());

    let partial = ImportResult {
        imported: vec![],
        skipped: vec![SkippedRule { id: None, reason: "d".to_string() }],
    };
    assert!(!partial.fully_succeeded());
}

#[test]
fn importing_derives_name_and_description_from_id_and_message() {
    let yaml = format!("{RUST_RULE}---\n{GO_RULE}");
    let result = import(&yaml, None).unwrap();
    assert_eq!(result.imported.len(), 2);
    assert!(result.skipped.is_empty());
    let rust = result.imported.iter().find(|p| p.id() == "no-debug-print-rust").unwrap();
    assert_eq!(rust.name, "no-debug-print-rust");
    assert_eq!(rust.description, "Avoid println! in production code");
    let go = result.imported.iter().find(|p| p.id() == "no-debug-print-go").unwrap();
    assert_eq!(go.name, "no-debug-print-go");
    assert_eq!(go.description, "Avoid fmt.Println in production code");
}

#[test]
fn importing_applies_the_given_category_to_every_document() {
    let yaml = format!("{RUST_RULE}---\n{GO_RULE}");
    let result = import(&yaml, Some("bulk".to_string())).unwrap();
    assert!(result.imported.iter().all(|p| p.category.as_deref() == Some("bulk")));
}

#[test]
fn importing_skips_an_unsupported_language_with_a_reason_but_keeps_the_rest() {
    let yaml = format!("{RUST_RULE}---\n{COBOL_RULE}");
    let result = import(&yaml, None).unwrap();
    assert_eq!(result.imported.len(), 1);
    assert_eq!(result.imported[0].id(), "no-debug-print-rust");
    assert_eq!(result.skipped.len(), 1);
    let skip = &result.skipped[0];
    assert_eq!(skip.id.as_deref(), Some("no-debug-print-cobol"));
    assert!(skip.reason.contains("Cobol"), "got: {}", skip.reason);
    assert!(!skip.reason.contains('\n'), "one line per skip, got: {}", skip.reason);
}

#[test]
fn importing_reports_none_as_the_skip_id_of_a_document_without_one() {
    let result = import(RULE_WITHOUT_ID, None).unwrap();
    assert!(result.imported.is_empty());
    assert_eq!(result.skipped.len(), 1);
    assert_eq!(result.skipped[0].id, None);
}

#[test]
fn importing_ignores_an_empty_document_and_a_non_rule_document() {
    let yaml = format!("{RUST_RULE}---\n---\n{GO_RULE}---\n{NOT_A_RULE_DOCUMENT}");
    let result = import(&yaml, None).unwrap();
    assert_eq!(result.imported.len(), 2);
    assert!(result.skipped.is_empty(), "got: {:?}", result.skipped);
}

#[test]
fn importing_keeps_one_entry_per_repeated_id_the_last_one() {
    let updated_rust_rule = r#"
id: no-debug-print-rust
message: Avoid println! in production code (v2)
severity: error
language: Rust
rule:
  pattern: println!($$$ARGS)
"#;
    let yaml = format!("{RUST_RULE}---\n{updated_rust_rule}");
    let result = import(&yaml, None).unwrap();
    assert_eq!(result.imported.len(), 1);
    assert_eq!(result.imported[0].description, "Avoid println! in production code (v2)");
    assert_eq!(result.imported[0].severity(), Severity::Error);
}

#[test]
fn importing_lists_ids_in_the_order_they_first_appear_with_the_last_content() {
    let updated_rust_rule = r#"
id: no-debug-print-rust
message: Avoid println! in production code (v2)
severity: error
language: Rust
rule:
  pattern: println!($$$ARGS)
"#;
    let yaml = format!("{RUST_RULE}---\n{GO_RULE}---\n{updated_rust_rule}");
    let result = import(&yaml, None).unwrap();
    let ids: Vec<&str> = result.imported.iter().map(|p| p.id()).collect();
    assert_eq!(ids, vec!["no-debug-print-rust", "no-debug-print-go"]);
    assert_eq!(result.imported[0].description, "Avoid println! in production code (v2)");
}

#[test]
fn importing_yaml_that_does_not_split_is_an_invalid_rule() {
    match import("not: valid: yaml: at: all: -", None) {
        Err(RegisterPatternError::InvalidRule(NormaError::InvalidYaml { message })) => {
            assert!(!message.is_empty())
        }
        other => panic!("expected an invalid rule, got {other:?}"),
    }
}

#[test]
fn registration_derives_the_stored_fields_from_the_rule() {
    let p = registration(
        "No Debug Print".to_string(),
        "d".to_string(),
        Some("quality".to_string()),
        RUST_RULE.to_string(),
        now(),
    )
    .unwrap();
    assert_eq!(p.id(), "no-debug-print-rust");
    assert_eq!(p.language(), "rust");
    assert_eq!(p.severity(), Severity::Warning);
    assert_eq!(p.rule(), RUST_RULE);
    assert!(p.enabled);
    assert_eq!(p.created_at, now());
    assert_eq!(p.updated_at, now());
}

#[test]
fn registration_refuses_an_invalid_rule_as_the_callers_mistake() {
    let err = registration("x".to_string(), "d".to_string(), None, RULE_WITHOUT_ID.to_string(), now())
        .unwrap_err();
    assert!(matches!(err, RegisterPatternError::InvalidRule(NormaError::MissingRuleId)));
    assert_eq!(err.message(), "rule YAML must set a non-empty top-level `id`");
    assert_eq!(
        RegisterPatternError::Storage("disk full".to_string()).message(),
        "storage error: disk full"
    );
}

#[test]
fn an_import_document_that_fails_is_skipped_with_its_raw_id() {
    let docs = import_documents(COBOL_RULE).unwrap();
    match import_document(docs.into_iter().next().unwrap(), None, now()) {
        ImportStep::Skip(s) => assert_eq!(s.id.as_deref(), Some("no-debug-print-cobol")),
        ImportStep::Register(p) => panic!("expected a skip, got {p:?}"),
    }
}

#[test]
fn seeding_adds_a_missing_default_and_leaves_an_existing_id_alone() {
    let defs = default_patterns::all();
    let def = defs.iter().find(|d| d.rule.contains("no-debug-print-rust")).unwrap();
    let added = seed_candidate(def, &vec![], now()).unwrap().unwrap();
    assert_eq!(added.id(), "no-debug-print-rust");
    assert_eq!(added.name, def.name);
    assert_eq!(added.category.as_deref(), Some(def.category));
    let kept = seed_candidate(def, &vec!["no-debug-print-rust".to_string()], now()).unwrap();
    assert!(kept.is_none());
}

#[test]
fn seeding_every_default_into_an_empty_store_adds_twenty() {
    let mut ids: Vec<String> = vec![];
    for def in default_patterns::all() {
        if let Some(p) = seed_candidate(&def, &ids, now()).unwrap() {
            ids.push(p.id().to_string());
        }
    }
    assert_eq!(ids.len(), 20);
    for def in default_patterns::all() {
        assert!(seed_candidate(&def, &ids, now()).unwrap().is_none());
    }
}

#[test]
fn a_stored_row_reads_back_or_names_what_is_wrong() {
    let p = row_to_pattern(
        "id".to_string(),
        "n".to_string(),
        "d".to_string(),
        None,
        "rust".to_string(),
        "info",
        RUST_RULE.to_string(),
        false,
        "2023-11-14T22:13:20+00:00",
        "2023-11-14T23:13:20.5+01:00",
    )
    .unwrap();
    assert_eq!(p.severity(), Severity::Info);
    assert!(!p.enabled);
    assert_eq!(p.created_at, now());
    assert_eq!(p.updated_at, Timestamp { unix_seconds: 1_700_000_000, nanoseconds: 500_000_000 });

    let err = row_to_pattern(
        "id".to_string(),
        "n".to_string(),
        "d".to_string(),
        None,
        "rust".to_string(),
        "fatal",
        RUST_RULE.to_string(),
        true,
        "not a time",
        "not a time",
    )
    .unwrap_err();
    assert_eq!(err, "unknown severity in database: fatal");

    let err = row_to_pattern(
        "id".to_string(),
        "n".to_string(),
        "d".to_string(),
        None,
        "rust".to_string(),
        "info",
        RUST_RULE.to_string(),
        true,
        "not a time",
        "2023-11-14T22:13:20+00:00",
    )
    .unwrap_err();
    assert!(!err.is_empty());
}

#[test]
fn a_pattern_is_stored_as_text_and_reads_back_the_same() {
    let mut p = registration(
        "No Debug Print".to_string(),
        "d".to_string(),
        Some("quality".to_string()),
        RUST_RULE.to_string(),
        now(),
    )
    .unwrap();
    p.updated_at = Timestamp { unix_seconds: 1_700_000_001, nanoseconds: 123_456_789 };
    let row = pattern_row(&p).unwrap();
    assert_eq!(row.severity, "warning");
    assert_eq!(row.created_at, "2023-11-14T22:13:20+00:00");
    assert_eq!(row.updated_at, "2023-11-14T22:13:21.123456789+00:00");
    let back = row_to_pattern(
        row.id,
        row.name,
        row.description,
        row.category,
        row.language,
        &row.severity,
        row.rule,
        row.enabled,
        &row.created_at,
        &row.updated_at,
    )
    .unwrap();
    assert_eq!(back, p);
}

#[test]
fn imported_patterns_keep_the_order_of_each_ids_first_document() {
    let updated_rust_rule = RUST_RULE.replace("Avoid println! in production code", "v2");
    let yaml = format!("{RUST_RULE}---\n{GO_RULE}---\n{updated_rust_rule}");
    let result = import_plan(&yaml, None, now()).unwrap();
    let ids: Vec<&str> = result.imported.iter().map(|p| p.id()).collect();
    assert_eq!(ids, ["no-debug-print-rust", "no-debug-print-go"]);
    assert_eq!(result.imported[0].description, "v2");
}
