//! The data model: severities, registered patterns, violations and the
//! results of validating and fixing code.

use vstd::prelude::*;

verus! {

/// Severity level for a pattern violation, derived from the `severity`
/// field of a pattern's rule YAML.
#[derive(Debug, Clone, Copy, PartialEq, Eq, Structural)]
pub enum Severity {
    Off,
    Hint,
    Info,
    Warning,
    Error,
}

impl Severity {
    /// The lowercase string form stored in the pattern database.
    pub open spec fn spec_as_str(self) -> Seq<char> {
        match self {
            Severity::Off => "off"@,
            Severity::Hint => "hint"@,
            Severity::Info => "info"@,
            Severity::Warning => "warning"@,
            Severity::Error => "error"@,
        }
    }

    /// The severity whose string form is `raw`, if any.
    pub open spec fn spec_parse(raw: Seq<char>) -> Option<Severity> {
        if raw == "off"@ {
            Some(Severity::Off)
        } else if raw == "hint"@ {
            Some(Severity::Hint)
        } else if raw == "info"@ {
            Some(Severity::Info)
        } else if raw == "warning"@ {
            Some(Severity::Warning)
        } else if raw == "error"@ {
            Some(Severity::Error)
        } else {
            None
        }
    }

    /// Warning and error severities count against a validation run; the
    /// others are informational.
    pub open spec fn spec_is_blocking(self) -> bool {
        self == Severity::Warning || self == Severity::Error
    }

    /// Parses the lowercase string form (see `as_str`); `None` for anything else.
    pub fn parse(raw: &str) -> (r: Option<Severity>)
        ensures
            r == Severity::spec_parse(raw@),
    {
        if crate::text::str_eq(raw, "off") {
            Some(Severity::Off)
        } else if crate::text::str_eq(raw, "hint") {
            Some(Severity::Hint)
        } else if crate::text::str_eq(raw, "info") {
            Some(Severity::Info)
        } else if crate::text::str_eq(raw, "warning") {
            Some(Severity::Warning)
        } else if crate::text::str_eq(raw, "error") {
            Some(Severity::Error)
        } else {
            None
        }
    }

    /// The lowercase string form of this severity.
    pub fn as_str(&self) -> (r: &'static str)
        ensures
            r@ == self.spec_as_str(),
    {
        match self {
            Severity::Off => "off",
            Severity::Hint => "hint",
            Severity::Info => "info",
            Severity::Warning => "warning",
            Severity::Error => "error",
        }
    }

    /// Whether this severity counts against a validation run.
    pub fn is_blocking(&self) -> (r: bool)
        ensures
            r == self.spec_is_blocking(),
    {
        match self {
            Severity::Warning | Severity::Error => true,
            _ => false,
        }
    }
}

/// Every severity's string form parses back to that severity.
pub proof fn severity_round_trips(s: Severity)
    ensures
        Severity::spec_parse(s.spec_as_str()) == Some(s),
{
    reveal_strlit("off");
    reveal_strlit("hint");
    reveal_strlit("info");
    reveal_strlit("warning");
    reveal_strlit("error");
    assert("hint"@[0] != "info"@[0]);
    assert("off"@.len() != "hint"@.len());
    assert("warning"@.len() != "error"@.len());
    match s {
        Severity::Off => {},
        Severity::Hint => {
            assert("hint"@ != "off"@);
        },
        Severity::Info => {
            assert("info"@ != "off"@);
            assert("info"@ != "hint"@);
        },
        Severity::Warning => {
            assert("warning"@ != "off"@);
            assert("warning"@ != "hint"@);
            assert("warning"@ != "info"@);
        },
        Severity::Error => {
            assert("error"@ != "off"@);
            assert("error"@ != "hint"@);
            assert("error"@ != "info"@);
            assert("error"@ != "warning"@);
        },
    }
}

/// A point in time, as seconds and nanoseconds since the Unix epoch (UTC).
#[derive(Debug, Clone, Copy, PartialEq, Eq, Structural)]
pub struct Timestamp {
    pub unix_seconds: i64,
    pub nanoseconds: u32,
}

/// A registered code pattern: one ast-grep rule for one language, plus
/// norma's catalog metadata.
///
/// `id`, `language` and `severity` are derived from `rule` by
/// `Pattern::from_rule`, the only public constructor that checks them;
/// `Pattern::from_trusted_row` rebuilds a row that was already checked
/// when it was written.
#[derive(Debug, Clone, PartialEq)]
pub struct Pattern {
    pub(crate) id: String,
    /// norma's catalog name; repeats across the language variants of one idea.
    pub name: String,
    /// norma's own, longer explanation.
    pub description: String,
    /// Free-text grouping, e.g. `"code-quality"`.
    pub category: Option<String>,
    pub(crate) language: String,
    pub(crate) severity: Severity,
    pub(crate) rule: String,
    pub enabled: bool,
    pub created_at: Timestamp,
    pub updated_at: Timestamp,
}

impl Pattern {
    pub closed spec fn spec_name(&self) -> String {
        self.name
    }

    pub closed spec fn spec_description(&self) -> String {
        self.description
    }

    pub closed spec fn spec_category(&self) -> Option<String> {
        self.category
    }

    pub closed spec fn spec_enabled(&self) -> bool {
        self.enabled
    }

    pub closed spec fn spec_created_at(&self) -> Timestamp {
        self.created_at
    }

    pub closed spec fn spec_updated_at(&self) -> Timestamp {
        self.updated_at
    }

    /// The rule id (the rule YAML's `id`).
    pub closed spec fn spec_id(&self) -> Seq<char> {
        self.id@
    }

    /// norma's canonical language key, e.g. `"rust"`.
    pub closed spec fn spec_language(&self) -> Seq<char> {
        self.language@
    }

    /// The severity derived from the rule YAML.
    pub closed spec fn spec_severity(&self) -> Severity {
        self.severity
    }

    /// The full ast-grep rule YAML.
    pub closed spec fn spec_rule(&self) -> Seq<char> {
        self.rule@
    }

    pub fn id(&self) -> (r: &str)
        ensures
            r@ == self.spec_id(),
    {
        self.id.as_str()
    }

    pub fn language(&self) -> (r: &str)
        ensures
            r@ == self.spec_language(),
    {
        self.language.as_str()
    }

    pub fn severity(&self) -> (r: Severity)
        ensures
            r == self.spec_severity(),
    {
        self.severity
    }

    pub fn rule(&self) -> (r: &str)
        ensures
            r@ == self.spec_rule(),
    {
        self.rule.as_str()
    }

    /// Rebuilds a `Pattern` from a stored row without re-parsing `rule`,
    /// trusting that `id`, `language` and `severity` still agree with it.
    pub fn from_trusted_row(
        id: String,
        name: String,
        description: String,
        category: Option<String>,
        language: String,
        severity: Severity,
        rule: String,
        enabled: bool,
        created_at: Timestamp,
        updated_at: Timestamp,
    ) -> (r: Pattern)
        ensures
            r.spec_id() == id@,
            r.spec_name() == name,
            r.spec_description() == description,
            r.spec_category() == category,
            r.spec_language() == language@,
            r.spec_severity() == severity,
            r.spec_rule() == rule@,
            r.spec_enabled() == enabled,
            r.spec_created_at() == created_at,
            r.spec_updated_at() == updated_at,
    {
        Pattern {
            id,
            name,
            description,
            category,
            language,
            severity,
            rule,
            enabled,
            created_at,
            updated_at,
        }
    }
}

/// Inside the crate, each spec accessor of a `Pattern` is its field.
pub(crate) broadcast proof fn pattern_accessors(p: Pattern)
    ensures
        #[trigger] p.spec_name() == p.name && p.spec_description() == p.description
            && p.spec_category() == p.category && p.spec_enabled() == p.enabled
            && p.spec_created_at() == p.created_at && p.spec_updated_at() == p.updated_at
            && p.spec_id() == p.id@ && p.spec_language() == p.language@ && p.spec_severity()
            == p.severity && p.spec_rule() == p.rule@,
{
}

/// A position ast-grep matched at; `line` and `column` are zero-based.
#[derive(Debug, Clone, PartialEq, Eq)]
pub struct CodeLocation {
    pub file: Option<String>,
    pub line: usize,
    pub column: usize,
}

/// A single match of a pattern against a piece of code.
#[derive(Debug, Clone, PartialEq)]
pub struct PatternViolation {
    pub pattern_id: String,
    pub pattern_name: String,
    pub severity: Severity,
    pub location: CodeLocation,
    pub matched_text: String,
    pub message: String,
    /// The replacement ast-grep's fixer produces for this match, when the
    /// rule has a `fix:`; shown whether or not `apply_fixes` applies it.
    pub suggested_fix: Option<String>,
}

/// The mathematical content of a `PatternViolation`.
pub struct ViolationView {
    pub pattern_id: Seq<char>,
    pub pattern_name: Seq<char>,
    pub severity: Severity,
    pub file: Option<Seq<char>>,
    pub line: usize,
    pub column: usize,
    pub matched_text: Seq<char>,
    pub message: Seq<char>,
    pub suggested_fix: Option<Seq<char>>,
}

/// The view of an optional string.
pub open spec fn opt_view(s: Option<String>) -> Option<Seq<char>> {
    match s {
        Some(v) => Some(v@),
        None => None,
    }
}

impl View for PatternViolation {
    type V = ViolationView;

    open spec fn view(&self) -> ViolationView {
        ViolationView {
            pattern_id: self.pattern_id@,
            pattern_name: self.pattern_name@,
            severity: self.severity,
            file: opt_view(self.location.file),
            line: self.location.line,
            column: self.location.column,
            matched_text: self.matched_text@,
            message: self.message@,
            suggested_fix: opt_view(self.suggested_fix),
        }
    }
}

/// The views of a sequence of violations.
pub open spec fn violation_views(v: Seq<PatternViolation>) -> Seq<ViolationView> {
    v.map_values(|x: PatternViolation| x@)
}

/// A validation score as the exact ratio `1 - deducted / out_of`, with
/// `deducted <= out_of` and `out_of >= 1` (so the score lies in `[0, 1]`).
/// `1 - deducted as f64 / out_of as f64` is the floating-point score.
#[derive(Debug, Clone, Copy, PartialEq, Eq, Structural)]
pub struct Score {
    pub deducted: usize,
    pub out_of: usize,
}

/// The result of validating one piece of code against a set of patterns.
#[derive(Debug, Clone, PartialEq)]
pub struct ValidationResult {
    pub violations: Vec<PatternViolation>,
    pub passed: bool,
    /// 1 = no blocking violations relative to the patterns checked; 0 when
    /// no pattern was checked at all.
    pub score: Score,
    /// How many patterns were actually parsed and run.
    pub checked_patterns: usize,
    pub duration_ms: u128,
}

/// A cluster of two or more overlapping fix ranges from different patterns,
/// none of which was applied.
#[derive(Debug, Clone, PartialEq)]
pub struct FixConflict {
    pub pattern_ids: Vec<String>,
    pub location: CodeLocation,
}

/// The mathematical content of a `FixConflict`.
pub struct ConflictView {
    pub pattern_ids: Seq<Seq<char>>,
    pub file: Option<Seq<char>>,
    pub line: usize,
    pub column: usize,
}

impl View for FixConflict {
    type V = ConflictView;

    open spec fn view(&self) -> ConflictView {
        ConflictView {
            pattern_ids: crate::text::views(self.pattern_ids@),
            file: opt_view(self.location.file),
            line: self.location.line,
            column: self.location.column,
        }
    }
}

/// The views of a sequence of conflicts.
pub open spec fn conflict_views(v: Seq<FixConflict>) -> Seq<ConflictView> {
    v.map_values(|c: FixConflict| c@)
}

/// The views of a sequence of string pairs.
pub open spec fn pair_views(v: Seq<(String, String)>) -> Seq<(Seq<char>, Seq<char>)> {
    v.map_values(|p: (String, String)| (p.0@, p.1@))
}

/// The result of applying every enabled pattern's fix for one language to
/// one piece of code.
#[derive(Debug, Clone, PartialEq)]
pub struct FixResult {
    pub fixed_source: String,
    /// How many matches' fixes were applied.
    pub applied_count: usize,
    /// Overlapping clusters that were left unapplied.
    pub conflicts: Vec<FixConflict>,
    /// `(pattern_id, parse error)` for every enabled pattern whose stored
    /// rule no longer parses.
    pub skipped_rules: Vec<(String, String)>,
}

} // verus!
