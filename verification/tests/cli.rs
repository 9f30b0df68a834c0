use norma::cli::{
    fix_report, all_fixed_passed, all_passed, finish_import_dir, hidden_name, import_should_fail,
    merge_file_import, render_fix_report, render_human_readable, render_import_result,
    render_pattern_line, resolve_db_path, rule_file_name, should_write_back, Cli, CliErrorKind,
    Command, FileReport, FixReport, ImportDirError,
};
use norma::error::NormaError;
use norma::models::{
    CodeLocation, FixConflict, FixResult, Pattern, PatternViolation, Score, Severity, Timestamp,
    ValidationResult,
};
use norma::pattern_store::{ImportResult, RegisterPatternError, SkippedRule};

fn now() -> Timestamp {
    Timestamp { unix_seconds: 1_700_000_000, nanoseconds: 0 }
}

#[test]
fn parses_validate_with_all_flags() {
    let cli = Cli::parse_from(&["norma", "validate", "--language", "rust", "--json", "src/main.rs"]);
    assert_eq!(
        cli.command,
        Command::Validate {
            language: "rust".to_string(),
            json: true,
            fix: false,
            files: vec!["src/main.rs".to_string()],
        }
    );
}

/// This is exactly the shape `pre-commit` produces: the hook's `entry`
/// line followed by every staged file appended as its own argument.
#[test]
fn parses_validate_with_many_trailing_files() {
    let cli = Cli::parse_from(&[
        "norma",
        "validate",
        "--language",
        "rust",
        "--json",
        "src/a.rs",
        "src/b.rs",
        "src/c.rs",
    ]);
    assert_eq!(
        cli.command,
        Command::Validate {
            language: "rust".to_string(),
            json: true,
            fix: false,
            files: vec![
                "src/a.rs".to_string(),
                "src/b.rs".to_string(),
                "src/c.rs".to_string(),
            ],
        }
    );
}

#[test]
fn validate_requires_at_least_one_file() {
    assert!(Cli::try_parse_from(&["norma", "validate", "--language", "rust"]).is_err());
}

#[test]
fn parses_serve_and_list_patterns() {
    assert_eq!(Cli::parse_from(&["norma", "serve"]).command, Command::Serve);
    assert_eq!(
        Cli::parse_from(&["norma", "list-patterns"]).command,
        Command::ListPatterns
    );
}

#[test]
fn parses_import_with_category_and_json() {
    let cli = Cli::parse_from(&[
        "norma",
        "import",
        "--category",
        "bulk-imported",
        "--json",
        "rules/",
    ]);
    assert_eq!(
        cli.command,
        Command::Import {
            dir: "rules/".to_string(),
            category: Some("bulk-imported".to_string()),
            json: true,
        }
    );
}

#[test]
fn parses_import_without_category() {
    let cli = Cli::parse_from(&["norma", "import", "rules/"]);
    assert_eq!(
        cli.command,
        Command::Import {
            dir: "rules/".to_string(),
            category: None,
            json: false,
        }
    );
}

#[test]
fn db_is_global_and_accepted_before_or_after_the_subcommand() {
    let before = Cli::parse_from(&["norma", "--db", "/tmp/a.db", "list-patterns"]);
    let after = Cli::parse_from(&["norma", "list-patterns", "--db", "/tmp/a.db"]);
    assert_eq!(before.db, Some("/tmp/a.db".to_string()));
    assert_eq!(after.db, Some("/tmp/a.db".to_string()));
    assert_eq!(Cli::parse_from(&["norma", "list-patterns"]).db, None);
}

#[test]
fn parses_validate_with_the_fix_flag() {
    let cli = Cli::parse_from(&["norma", "validate", "--language", "rust", "--fix", "src/main.rs"]);
    assert_eq!(
        cli.command,
        Command::Validate {
            language: "rust".to_string(),
            json: false,
            fix: true,
            files: vec!["src/main.rs".to_string()],
        }
    );
}

#[test]
fn parses_options_written_with_an_equals_sign() {
    let cli = Cli::parse_from(&["norma", "--db=/x/y.db", "validate", "--language=python", "a.py"]);
    assert_eq!(cli.db, Some("/x/y.db".to_string()));
    assert_eq!(
        cli.command,
        Command::Validate {
            language: "python".to_string(),
            json: false,
            fix: false,
            files: vec!["a.py".to_string()],
        }
    );
}

#[test]
fn an_empty_language_or_category_is_a_value() {
    let cli = Cli::parse_from(&["norma", "import", "--category=", "rules"]);
    assert_eq!(
        cli.command,
        Command::Import { dir: "rules".to_string(), category: Some(String::new()), json: false }
    );
}

#[test]
fn db_given_after_the_subcommand_wins_over_the_one_before() {
    let cli = Cli::parse_from(&["norma", "--db", "a.db", "serve", "--db", "b.db"]);
    assert_eq!(cli.db, Some("b.db".to_string()));
}

#[test]
fn everything_after_a_double_dash_is_a_file() {
    let cli = Cli::parse_from(&["norma", "validate", "--language", "rust", "--", "--json", "-"]);
    assert_eq!(
        cli.command,
        Command::Validate {
            language: "rust".to_string(),
            json: false,
            fix: false,
            files: vec!["--json".to_string(), "-".to_string()],
        }
    );
}

#[test]
fn refusals_name_their_kind_and_argument() {
    let kind_of = |args: &[&str]| Cli::try_parse_from(args).unwrap_err();

    let e = kind_of(&["norma"]);
    assert_eq!(e.kind, CliErrorKind::MissingSubcommand);

    let e = kind_of(&["norma", "lint"]);
    assert_eq!((e.kind, e.argument.as_str()), (CliErrorKind::UnknownSubcommand, "lint"));

    let e = kind_of(&["norma", "validate", "a.rs"]);
    assert_eq!((e.kind, e.argument.as_str()), (CliErrorKind::MissingRequired, "--language"));

    let e = kind_of(&["norma", "validate", "--language", "rust"]);
    assert_eq!((e.kind, e.argument.as_str()), (CliErrorKind::MissingRequired, "FILE"));

    let e = kind_of(&["norma", "import"]);
    assert_eq!((e.kind, e.argument.as_str()), (CliErrorKind::MissingRequired, "DIR"));

    let e = kind_of(&["norma", "import", "a", "b"]);
    assert_eq!((e.kind, e.argument.as_str()), (CliErrorKind::UnexpectedArgument, "b"));

    let e = kind_of(&["norma", "serve", "--json"]);
    assert_eq!((e.kind, e.argument.as_str()), (CliErrorKind::UnexpectedArgument, "--json"));

    let e = kind_of(&["norma", "validate", "--language"]);
    assert_eq!((e.kind, e.argument.as_str()), (CliErrorKind::MissingValue, "--language"));

    let e = kind_of(&["norma", "validate", "--language", "--json", "a.rs"]);
    assert_eq!((e.kind, e.argument.as_str()), (CliErrorKind::MissingValue, "--language"));

    let e = kind_of(&["norma", "validate", "--json", "--json"]);
    assert_eq!((e.kind, e.argument.as_str()), (CliErrorKind::RepeatedArgument, "--json"));

    let e = kind_of(&["norma", "validate", "--language", "a", "--language=b", "x"]);
    assert_eq!((e.kind, e.argument.as_str()), (CliErrorKind::RepeatedArgument, "--language"));

    let e = kind_of(&["norma", "validate", "--fix=yes"]);
    assert_eq!((e.kind, e.argument.as_str()), (CliErrorKind::UnexpectedValue, "--fix=yes"));

    let e = kind_of(&["norma", "--", "serve"]);
    assert_eq!(e.kind, CliErrorKind::UnexpectedArgument);

    let e = kind_of(&["norma", "--db=", "serve"]);
    assert_eq!((e.kind, e.argument.as_str()), (CliErrorKind::EmptyValue, "--db"));

    let e = kind_of(&["norma", "serve", "--db", ""]);
    assert_eq!((e.kind, e.argument.as_str()), (CliErrorKind::EmptyValue, "--db"));

    let e = kind_of(&["norma", "validate", "--language", "rust", ""]);
    assert_eq!((e.kind, e.argument.as_str()), (CliErrorKind::EmptyValue, "FILE"));

    let e = kind_of(&["norma", "import", ""]);
    assert_eq!((e.kind, e.argument.as_str()), (CliErrorKind::EmptyValue, "DIR"));

    assert_eq!(kind_of(&["norma", "--help"]).kind, CliErrorKind::Help);
    assert_eq!(kind_of(&["norma", "validate", "-h"]).kind, CliErrorKind::Help);
    assert_eq!(kind_of(&["norma", "help"]).kind, CliErrorKind::Help);
    assert_eq!(kind_of(&["norma", "-V"]).kind, CliErrorKind::Version);
    assert_eq!(kind_of(&["norma", "serve", "--version"]).kind, CliErrorKind::UnexpectedArgument);
}

// --- resolve_db_path -----------------------------------------------

#[test]
fn resolve_db_path_prefers_the_flag_over_everything_else() {
    let path = resolve_db_path(
        Some("/explicit.db".to_string()),
        Some("/from-env.db".to_string()),
        Some("/xdg-data".to_string()),
        Some("/home/daniel".to_string()),
    );
    assert_eq!(path, "/explicit.db");
}

#[test]
fn resolve_db_path_prefers_norma_db_env_over_xdg_data_home() {
    let path = resolve_db_path(
        None,
        Some("/from-env.db".to_string()),
        Some("/xdg-data".to_string()),
        Some("/home/daniel".to_string()),
    );
    assert_eq!(path, "/from-env.db");
}

#[test]
fn resolve_db_path_prefers_xdg_data_home_over_the_home_default() {
    let path = resolve_db_path(
        None,
        None,
        Some("/xdg-data".to_string()),
        Some("/home/daniel".to_string()),
    );
    assert_eq!(path, "/xdg-data/norma/norma.db");
}

#[test]
fn resolve_db_path_ignores_an_empty_xdg_data_home_value() {
    let path = resolve_db_path(None, None, Some(String::new()), Some("/home/daniel".to_string()));
    assert_eq!(path, "/home/daniel/.local/share/norma/norma.db");
}

#[test]
fn resolve_db_path_falls_back_to_a_fixed_path_under_home() {
    let path = resolve_db_path(None, None, None, Some("/home/daniel".to_string()));
    assert_eq!(path, "/home/daniel/.local/share/norma/norma.db");
}

#[test]
fn resolve_db_path_ignores_an_empty_norma_db_value() {
    let path = resolve_db_path(None, Some(String::new()), None, Some("/home/daniel".to_string()));
    assert_eq!(path, "/home/daniel/.local/share/norma/norma.db");
}

#[test]
fn resolve_db_path_falls_back_to_a_bare_relative_name_when_home_is_unset() {
    let path = resolve_db_path(None, None, None, None);
    assert_eq!(path, "norma.db");
}

#[test]
fn resolve_db_path_adds_no_second_separator_after_a_trailing_slash() {
    let path = resolve_db_path(None, None, Some("/xdg-data/".to_string()), None);
    assert_eq!(path, "/xdg-data/norma/norma.db");
}

// --- render_human_readable --------------------------------------------

fn violation(id: &str, name: &str, severity: Severity, matched: &str) -> PatternViolation {
    PatternViolation {
        pattern_id: id.to_string(),
        pattern_name: name.to_string(),
        severity,
        location: CodeLocation { file: None, line: 0, column: 0 },
        matched_text: matched.to_string(),
        message: "d".to_string(),
        suggested_fix: None,
    }
}

/// A warning-severity match mixed with an info-severity one must not
/// render as the self-contradictory "N violation(s), score 1.00".
#[test]
fn render_human_readable_splits_blocking_from_informational_counts() {
    let result = ValidationResult {
        violations: vec![
            violation(
                "singleton-quality-rust",
                "Singleton Implementation Quality",
                Severity::Warning,
                "impl Config { pub fn new() -> Config { Config } }",
            ),
            violation(
                "observer-presence-rust",
                "Observer Presence",
                Severity::Info,
                "struct Publisher { observers: Vec<Box<dyn Observer>> }",
            ),
        ],
        passed: false,
        score: Score { deducted: 1, out_of: 2 },
        checked_patterns: 2,
        duration_ms: 1,
    };

    let score_text = format!("{:.2}", 1.0 - 1.0 / 2.0);
    let rendered = render_human_readable("src/lib.rs", &result, &score_text);
    assert!(
        rendered.contains("1 violation(s) (1 informational), score 0.50"),
        "unexpected summary line, got: {rendered}"
    );
}

#[test]
fn render_human_readable_prints_one_based_positions_and_falls_back_to_the_message() {
    let mut v = violation("x", "X", Severity::Error, "");
    v.location = CodeLocation { file: None, line: 4, column: 2 };
    v.message = "no coverage".to_string();
    let result = ValidationResult {
        violations: vec![v],
        passed: false,
        score: Score { deducted: 1, out_of: 1 },
        checked_patterns: 1,
        duration_ms: 7,
    };
    let rendered = render_human_readable("f.rs", &result, "0.00");
    assert_eq!(
        rendered,
        "f.rs:5:3: [error] X -- no coverage\n1 violation(s) (0 informational), score 0.00, 1 pattern(s) checked (7 ms)"
    );
}

#[test]
fn render_human_readable_reports_a_clean_file_with_its_duration() {
    let result = ValidationResult {
        violations: vec![],
        passed: true,
        score: Score { deducted: 0, out_of: 3 },
        checked_patterns: 3,
        duration_ms: 12,
    };
    assert_eq!(render_human_readable("ok.rs", &result, "1.00"), "ok.rs: no violations (12 ms)");
}

// --- render_fix_report ------------------------------------------------

fn clean_result(checked: usize) -> ValidationResult {
    ValidationResult {
        violations: vec![],
        passed: true,
        score: Score { deducted: 0, out_of: 1 },
        checked_patterns: checked,
        duration_ms: 1,
    }
}

#[test]
fn render_fix_report_shows_applied_count_then_remaining_violations() {
    let report = FixReport {
        file: "src/lib.rs".to_string(),
        applied: 2,
        conflicts: vec![],
        skipped_rules: vec![],
        result: clean_result(1),
    };
    let rendered = render_fix_report("src/lib.rs", &report, "1.00");
    assert!(rendered.contains("applied 2 fix(es)"), "got: {rendered}");
    assert!(rendered.contains("no violations"), "got: {rendered}");
}

#[test]
fn render_fix_report_surfaces_a_conflict_as_a_warning_line() {
    let report = FixReport {
        file: "src/lib.rs".to_string(),
        applied: 0,
        conflicts: vec![FixConflict {
            pattern_ids: vec!["a".to_string(), "b".to_string()],
            location: CodeLocation { file: None, line: 4, column: 2 },
        }],
        skipped_rules: vec![],
        result: clean_result(2),
    };
    let rendered = render_fix_report("src/lib.rs", &report, "1.00");
    assert!(
        rendered.contains(
            "src/lib.rs:5:3: [warning] fix conflict -- overlapping fixes from a, b were not applied"
        ),
        "got: {rendered}"
    );
}

#[test]
fn render_fix_report_names_a_pattern_whose_stored_rule_no_longer_parses() {
    let report = FixReport {
        file: "f.rs".to_string(),
        applied: 0,
        conflicts: vec![],
        skipped_rules: vec![("was-valid-once".to_string(), "bad yaml".to_string())],
        result: clean_result(1),
    };
    let rendered = render_fix_report("f.rs", &report, "1.00");
    assert_eq!(
        rendered,
        "f.rs: [warning] pattern \"was-valid-once\" has an unparsable rule, skipped: bad yaml\nf.rs: no violations (1 ms)"
    );
}

#[test]
fn a_file_is_written_back_only_when_a_fix_was_applied() {
    let mut fix = FixResult {
        fixed_source: "x".to_string(),
        applied_count: 0,
        conflicts: vec![],
        skipped_rules: vec![],
    };
    assert!(!should_write_back(&fix));
    fix.applied_count = 1;
    assert!(should_write_back(&fix));
}

// --- import ----------------------------------------------------------

const RUST_RULE: &str = r#"
id: no-debug-print-rust
message: Avoid println! in production code
severity: warning
language: Rust
rule:
  pattern: println!($$$ARGS)
"#;

fn rust_rule_pattern() -> Pattern {
    Pattern::from_rule(
        "no-debug-print-rust".to_string(),
        "d".to_string(),
        None,
        RUST_RULE.to_string(),
        true,
        now(),
        now(),
    )
    .unwrap()
}

#[test]
fn import_should_fail_is_true_only_when_something_was_skipped() {
    assert!(!import_should_fail(&ImportResult { imported: vec![], skipped: vec![] }));
    assert!(import_should_fail(&ImportResult {
        imported: vec![],
        skipped: vec![SkippedRule { id: None, reason: "d".to_string() }],
    }));
}

#[test]
fn render_import_result_lists_imported_and_skipped_with_a_summary() {
    let result = ImportResult {
        imported: vec![rust_rule_pattern()],
        skipped: vec![SkippedRule {
            id: Some("display-in-cobol".to_string()),
            reason: "unsupported language: Cobol".to_string(),
        }],
    };
    let rendered = render_import_result(&result);
    assert!(rendered.contains("imported no-debug-print-rust [rust]"));
    assert!(rendered.contains("[warning] skipped display-in-cobol: unsupported language: Cobol"));
    assert!(rendered.contains("1 imported, 1 skipped"));
}

#[test]
fn render_import_result_names_a_skip_without_an_id() {
    let result = ImportResult {
        imported: vec![],
        skipped: vec![SkippedRule { id: None, reason: "r".to_string() }],
    };
    assert_eq!(
        render_import_result(&result),
        "[warning] skipped <no id>: r\n0 imported, 1 skipped"
    );
}

#[test]
fn rule_files_are_the_yml_and_yaml_files() {
    assert!(rule_file_name("a.yaml"));
    assert!(rule_file_name("b.yml"));
    assert!(rule_file_name("c.d.yaml"));
    assert!(!rule_file_name("README.md"));
    assert!(!rule_file_name(".yaml"));
    assert!(!rule_file_name("yaml"));
    assert!(!rule_file_name("a.yaml.bak"));
    assert!(!rule_file_name("a.YAML"));
}

#[test]
fn dot_directories_are_hidden() {
    assert!(hidden_name(".git"));
    assert!(hidden_name(".github"));
    assert!(!hidden_name("rules"));
    assert!(!hidden_name(""));
}

#[test]
fn merging_a_file_attributes_its_skips_to_the_file() {
    let mut acc = ImportResult { imported: vec![], skipped: vec![] };
    let outcome = Ok(ImportResult {
        imported: vec![rust_rule_pattern()],
        skipped: vec![SkippedRule {
            id: Some("no-display-cobol".to_string()),
            reason: "unsupported language: Cobol".to_string(),
        }],
    });
    assert!(merge_file_import(&mut acc, "rules/cobol.yaml", outcome).is_ok());
    assert_eq!(acc.imported.len(), 1);
    assert_eq!(acc.skipped.len(), 1);
    assert_eq!(acc.skipped[0].id.as_deref(), Some("no-display-cobol"));
    assert_eq!(acc.skipped[0].reason, "rules/cobol.yaml: unsupported language: Cobol");
}

#[test]
fn merging_a_file_that_does_not_split_skips_just_that_file() {
    let mut acc = ImportResult { imported: vec![rust_rule_pattern()], skipped: vec![] };
    let outcome = Err(RegisterPatternError::InvalidRule(NormaError::InvalidYaml {
        message: "mapping values are not allowed".to_string(),
    }));
    assert!(merge_file_import(&mut acc, "broken.yaml", outcome).is_ok());
    assert_eq!(acc.imported.len(), 1);
    assert_eq!(acc.skipped.len(), 1);
    assert_eq!(acc.skipped[0].id, None);
    assert_eq!(acc.skipped[0].reason, "broken.yaml: mapping values are not allowed");
}

#[test]
fn merging_a_storage_failure_aborts_and_changes_nothing() {
    let mut acc = ImportResult { imported: vec![], skipped: vec![] };
    let outcome = Err(RegisterPatternError::Storage("disk full".to_string()));
    match merge_file_import(&mut acc, "a.yaml", outcome) {
        Err(RegisterPatternError::Storage(m)) => assert_eq!(m, "disk full"),
        other => panic!("expected a storage failure, got {other:?}"),
    }
    assert!(acc.imported.is_empty() && acc.skipped.is_empty());
}

#[test]
fn an_import_that_found_nothing_is_refused() {
    let empty = ImportResult { imported: vec![], skipped: vec![] };
    assert_eq!(finish_import_dir(0, empty.clone()), Err(ImportDirError::NoRuleFiles));
    assert_eq!(
        finish_import_dir(2, empty),
        Err(ImportDirError::NoRuleDocuments { files: 2 })
    );
    let one_skip = ImportResult {
        imported: vec![],
        skipped: vec![SkippedRule { id: None, reason: "r".to_string() }],
    };
    assert_eq!(finish_import_dir(1, one_skip.clone()), Ok(one_skip));
    assert_eq!(
        ImportDirError::NoRuleFiles.message("rules"),
        "rules: no .yml/.yaml files found"
    );
    assert_eq!(
        ImportDirError::NoRuleDocuments { files: 2 }.message("rules"),
        "rules: found 2 .yml/.yaml file(s), but none contained a RuleConfig document"
    );
}

#[test]
fn a_run_passes_only_when_every_file_passes() {
    let clean = FileReport { file: "a".to_string(), result: clean_result(1) };
    let mut dirty = FileReport { file: "b".to_string(), result: clean_result(1) };
    dirty.result.passed = false;
    assert!(all_passed(&[]));
    assert!(all_passed(&[clean.clone()]));
    assert!(!all_passed(&[clean.clone(), dirty.clone()]));
    let fixed = FixReport {
        file: "a".to_string(),
        applied: 1,
        conflicts: vec![],
        skipped_rules: vec![],
        result: dirty.result.clone(),
    };
    assert!(!all_fixed_passed(&[fixed]));
}

#[test]
fn list_patterns_lines_pad_id_and_language() {
    let line = render_pattern_line(&rust_rule_pattern());
    assert_eq!(
        line,
        format!("{:<28} {:<10} [{}] {}", "no-debug-print-rust", "rust", "warning", "no-debug-print-rust")
    );
    assert_eq!(line, "no-debug-print-rust          rust       [warning] no-debug-print-rust");
}

#[test]
fn db_reads_the_same_before_or_after_the_subcommand_whatever_follows() {
    let before = Cli::try_parse_from(&["norma", "--db", "x.db", "validate", "--language", "rust", "a.rs"]);
    let after = Cli::try_parse_from(&["norma", "validate", "--db", "x.db", "--language", "rust", "a.rs"]);
    assert_eq!(before, after);
    assert_eq!(before.unwrap().db, Some("x.db".to_string()));
    let before = Cli::try_parse_from(&["norma", "--db", "x.db", "import", "a", "b"]);
    let after = Cli::try_parse_from(&["norma", "import", "--db", "x.db", "a", "b"]);
    assert_eq!(before, after);
    assert!(before.is_err());
}

#[test]
fn a_fix_report_carries_the_fixed_code_only_when_a_fix_applied() {
    let rule = "id: no-unwrap-rust\nmessage: m\nseverity: warning\nlanguage: Rust\nrule:\n  pattern: $E.unwrap()\nfix: $E.expect(\"TODO\")\n";
    let p = Pattern::from_rule("n".to_string(), "d".to_string(), None, rule.to_string(), true, now(), now()).unwrap();
    let (report, write) = fix_report("a.rs".to_string(), "fn main() { v.unwrap(); }", "rust", &[p.clone()]).unwrap();
    assert_eq!(report.file, "a.rs");
    assert_eq!(report.applied, 1);
    assert!(report.result.passed);
    assert_eq!(write.as_deref(), Some("fn main() { v.expect(\"TODO\"); }"));
    let (report, write) = fix_report("b.rs".to_string(), "fn main() {}", "rust", &[p.clone()]).unwrap();
    assert_eq!(report.applied, 0);
    assert_eq!(write, None);
    assert!(fix_report("c".to_string(), "x", "cobol", &[p]).is_err());
}

#[test]
fn refusals_have_one_line_messages() {
    let e = Cli::try_parse_from(&["norma", "lint"]).unwrap_err();
    assert_eq!(e.message(), "unrecognized subcommand 'lint'");
    let e = Cli::try_parse_from(&["norma", "validate", "--language"]).unwrap_err();
    assert_eq!(e.message(), "a value is required for '--language' but none was supplied");
    let e = Cli::try_parse_from(&["norma", "import"]).unwrap_err();
    assert_eq!(e.message(), "the following required argument was not provided: DIR");
    let e = Cli::try_parse_from(&["norma"]).unwrap_err();
    assert_eq!(e.message(), "a subcommand is required");
}
