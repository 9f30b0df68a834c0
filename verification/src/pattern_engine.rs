//! The rule engine: language keys, rule parsing and registration checks,
//! validation of code against patterns, dry runs of a candidate rule, and
//! applying the patterns' fixes.

use crate::ast_grep::{
    alias_lookup_ignores_ascii_case, alias_lookup_names_a_listed_language, all_language_names,
    ast_grep_language_aliases, ast_grep_language_for_alias, ast_grep_language_names, ast_grep_rule_documents,
    ast_grep_rule_matches, first_edit, first_edit_of, language_for_alias, rule_documents, rule_matches,
    RawRule, RuleMatch,
};
use crate::error::NormaError;
use crate::models::{Timestamp, opt_view, Pattern, PatternViolation, Severity, ValidationResult, ViolationView, violation_views, Score, CodeLocation, FixConflict, FixResult};
use crate::stdlib::{lowercase, std_lowercase};
use crate::text::{owned, str_eq};
use vstd::prelude::*;
use vstd::string::*;

pub use crate::fixes::apply_fixes;

verus! {

// ---------------------------------------------------------------------
// Languages
// ---------------------------------------------------------------------

/// norma's canonical key for the ast-grep language named `name`: the name
/// lowercased, provided that the key parses back to that same language.
pub open spec fn spec_language_key(name: Seq<char>) -> Option<Seq<char>> {
    let key = std_lowercase(name);
    if ast_grep_language_for_alias(key) == Some(name) {
        Some(key)
    } else {
        None
    }
}

/// The canonical key of the language that a user-supplied language string
/// (any ast-grep alias, ignoring ASCII case) names, if norma supports it.
pub open spec fn spec_resolve_language(language: Seq<char>) -> Option<Seq<char>> {
    match ast_grep_language_for_alias(language) {
        Some(name) => spec_language_key(name),
        None => None,
    }
}

/// The keys of the languages named `names`, in order, leaving out any name
/// whose key does not parse back to it.
pub open spec fn spec_supported_keys(names: Seq<Seq<char>>) -> Seq<Seq<char>>
    decreases names.len(),
{
    if names.len() == 0 {
        Seq::empty()
    } else {
        spec_supported_keys(names.drop_last()) + match spec_language_key(names.last()) {
            Some(k) => seq![k],
            None => Seq::empty(),
        }
    }
}

/// norma's canonical key for the ast-grep language named `name` (e.g.
/// `"Rust"` gives `"rust"`); `None` when the lowercased name does not
/// parse back to the same language, in which case callers must treat the
/// language as unsupported.
pub fn language_key(name: &str) -> (r: Option<String>)
    ensures
        opt_view(r) == spec_language_key(name@),
{
    let key = lowercase(name);
    match language_for_alias(key.as_str()) {
        Some(back) => {
            if str_eq(back.as_str(), name) {
                Some(key)
            } else {
                None
            }
        },
        None => None,
    }
}

/// The keys of the languages named `names`, in order (see
/// `spec_supported_keys`).
pub fn supported_keys(names: &Vec<String>) -> (r: Vec<String>)
    ensures
        crate::text::views(r@) == spec_supported_keys(crate::text::views(names@)),
{
    let mut keys: Vec<String> = Vec::new();
    let mut i: usize = 0;
    while i < names.len()
        invariant
            0 <= i <= names@.len(),
            crate::text::views(keys@) == spec_supported_keys(
                crate::text::views(names@.take(i as int)),
            ),
        decreases names@.len() - i,
    {
        assert(crate::text::views(names@.take(i as int + 1)).drop_last() =~= crate::text::views(
            names@.take(i as int),
        ));
        match language_key(names[i].as_str()) {
            Some(k) => {
                keys.push(k);
            },
            None => {},
        }
        assert(crate::text::views(keys@) =~= spec_supported_keys(
            crate::text::views(names@.take(i as int + 1)),
        ));
        i = i + 1;
    }
    assert(names@.take(names@.len() as int) =~= names@);
    keys
}

/// Every language key norma supports: the keys of ast-grep's languages, in
/// ast-grep's order of its languages. Each of them resolves to itself.
pub fn supported_languages() -> (r: Vec<String>)
    ensures
        crate::text::views(r@) == spec_supported_keys(ast_grep_language_names()),
        crate::text::views(r@) == ast_grep_language_names().map_values(
            |n: Seq<char>| std_lowercase(n),
        ),
        forall|k: int|
            0 <= k < r@.len() ==> spec_resolve_language((#[trigger] r@[k])@) == Some(r@[k]@),
{
    let names = all_language_names();
    let keys = supported_keys(&names);
    proof {
        every_name_has_its_key(crate::text::views(names@));
        supported_keys_resolve_to_themselves(crate::text::views(names@));
        assert forall|k: int| 0 <= k < keys@.len() implies spec_resolve_language(
            (#[trigger] keys@[k])@,
        ) == Some(keys@[k]@) by {
            assert(crate::text::views(keys@)[k] == keys@[k]@);
        }
    }
    keys
}

/// Every key in a list of supported keys resolves to itself.
pub proof fn supported_keys_resolve_to_themselves(names: Seq<Seq<char>>)
    ensures
        forall|k: int|
            0 <= k < spec_supported_keys(names).len() ==> spec_resolve_language(
                #[trigger] spec_supported_keys(names)[k],
            ) == Some(spec_supported_keys(names)[k]),
    decreases names.len(),
{
    if names.len() > 0 {
        supported_keys_resolve_to_themselves(names.drop_last());
        match spec_language_key(names.last()) {
            Some(key) => {
                language_key_resolves_to_itself(names.last());
            },
            None => {},
        }
    }
}

/// When every listed name's lowercase form parses back to it, the
/// supported keys are the lowercased names, one per language, in order.
pub proof fn every_name_has_its_key(names: Seq<Seq<char>>)
    requires
        forall|k: int|
            0 <= k < names.len() ==> ast_grep_language_for_alias(std_lowercase(#[trigger] names[k]))
                == Some(names[k]),
    ensures
        spec_supported_keys(names) == names.map_values(|n: Seq<char>| std_lowercase(n)),
    decreases names.len(),
{
    if names.len() > 0 {
        let q = names.drop_last();
        assert forall|k: int| 0 <= k < q.len() implies ast_grep_language_for_alias(
            std_lowercase(#[trigger] q[k]),
        ) == Some(q[k]) by {
            assert(q[k] == names[k]);
        }
        every_name_has_its_key(q);
        assert(ast_grep_language_for_alias(std_lowercase(names[names.len() - 1])) == Some(names.last()));
        assert(spec_supported_keys(names) =~= names.map_values(|n: Seq<char>| std_lowercase(n)));
    }
}

/// The key of every listed language that has one is among the supported
/// keys of the list.
pub proof fn supported_keys_include(names: Seq<Seq<char>>, name: Seq<char>)
    requires
        names.contains(name),
        spec_language_key(name) is Some,
    ensures
        spec_supported_keys(names).contains(spec_language_key(name)->0),
    decreases names.len(),
{
    let k = spec_language_key(name)->0;
    let prev = spec_supported_keys(names.drop_last());
    if names.last() == name {
        assert(spec_supported_keys(names) == prev + seq![k]);
        assert(spec_supported_keys(names)[prev.len() as int] == k);
    } else {
        let i = choose|i: int| 0 <= i < names.len() && names[i] == name;
        assert(names.drop_last()[i] == name);
        supported_keys_include(names.drop_last(), name);
        let j = choose|j: int| 0 <= j < prev.len() && prev[j] == k;
        assert(spec_supported_keys(names)[j] == k);
    }
}

/// A canonical key, resolved as a language string, gives itself back.
pub proof fn language_key_resolves_to_itself(name: Seq<char>)
    requires
        spec_language_key(name) is Some,
    ensures
        spec_resolve_language(spec_language_key(name)->0) == spec_language_key(name),
{
}

/// Resolving is idempotent: the key that a language string resolves to
/// resolves to itself.
pub proof fn resolve_language_is_idempotent(language: Seq<char>)
    requires
        spec_resolve_language(language) is Some,
    ensures
        spec_resolve_language(spec_resolve_language(language)->0) == spec_resolve_language(
            language,
        ),
{
    language_key_resolves_to_itself(ast_grep_language_for_alias(language)->0);
}

/// Resolves a user-supplied language string (`--language`, or an MCP
/// tool's `language` parameter) to norma's canonical key, accepting any
/// ast-grep alias of a supported language (`"rs"` gives `"rust"`) in any
/// ASCII case, and refusing everything else.
pub fn resolve_language(language: &str) -> (r: Result<String, NormaError>)
    ensures
        match spec_resolve_language(language@) {
            Some(key) => r matches Ok(k) && k@ == key,
            None => r matches Err(NormaError::UnsupportedLanguage { requested }) && requested@
                == language@,
        },
        forall|other: Seq<char>|
            crate::stdlib::ascii_folded(other) == crate::stdlib::ascii_folded(language@)
                ==> #[trigger] spec_resolve_language(other) == spec_resolve_language(language@),
        r matches Ok(k) ==> spec_supported_keys(ast_grep_language_names()).contains(k@),
        (r is Ok) <==> ast_grep_language_for_alias(language@) is Some,
        r matches Ok(k) ==> k@ == std_lowercase(ast_grep_language_for_alias(language@)->0),
{
    let name = language_for_alias(language);
    proof {
        assert forall|other: Seq<char>|
            crate::stdlib::ascii_folded(other) == crate::stdlib::ascii_folded(language@)
                implies #[trigger] spec_resolve_language(other) == spec_resolve_language(language@) by {
            alias_lookup_ignores_ascii_case(ast_grep_language_aliases(), other, language@);
        }
        alias_lookup_names_a_listed_language(ast_grep_language_aliases(), language@);
    }
    match name {
        Some(n) => match language_key(n.as_str()) {
            Some(k) => {
                proof {
                    supported_keys_include(ast_grep_language_names(), n@);
                }
                Ok(k)
            },
            None => Err(NormaError::UnsupportedLanguage { requested: owned(language) }),
        },
        None => Err(NormaError::UnsupportedLanguage { requested: owned(language) }),
    }
}

// ---------------------------------------------------------------------
// Rules
// ---------------------------------------------------------------------

/// What norma reads of one parsed rule document.
#[derive(Debug, Clone)]
pub struct RuleHeader {
    /// The rule's top-level `id` (empty when the document has none).
    pub id: String,
    /// The rule's `message`.
    pub message: String,
    pub severity: Severity,
    /// ast-grep's name of the rule's `language`, e.g. `"Rust"`.
    pub language: String,
    /// Whether the rule has a `fix:`.
    pub has_fix: bool,
}

/// The severity at position `rank` among `ast_grep_config::Severity`'s
/// variants (off, hint, info, warning, error).
pub open spec fn severity_of_rank(rank: u8) -> Severity {
    if rank == 0 {
        Severity::Off
    } else if rank == 1 {
        Severity::Hint
    } else if rank == 2 {
        Severity::Info
    } else if rank == 3 {
        Severity::Warning
    } else {
        Severity::Error
    }
}

/// Maps ast-grep's severity (given as its variant's position) to norma's.
pub fn severity_from_ast_grep(rank: u8) -> (r: Severity)
    ensures
        r == severity_of_rank(rank),
{
    if rank == 0 {
        Severity::Off
    } else if rank == 1 {
        Severity::Hint
    } else if rank == 2 {
        Severity::Info
    } else if rank == 3 {
        Severity::Warning
    } else {
        Severity::Error
    }
}

/// The word a rule YAML writes for the severity at position `rank` of
/// `ast_grep_config::Severity` (serde's camelCase names of its variants,
/// in declaration order; ast-grep's default is `hint`, at position 1).
pub open spec fn ast_grep_severity_word(rank: u8) -> Seq<char> {
    if rank == 0 {
        "off"@
    } else if rank == 1 {
        "hint"@
    } else if rank == 2 {
        "info"@
    } else if rank == 3 {
        "warning"@
    } else {
        "error"@
    }
}

/// A rule gets the severity its YAML names: for each of ast-grep's
/// severities, norma's severity has the same name (so a rule without a
/// `severity:`, which ast-grep reads as `hint`, is a hint); distinct
/// ast-grep severities give distinct norma severities; and only the
/// severities named `warning` and `error` are blocking, so the matches of
/// an `off`, `hint` or `info` rule never fail a validation.
pub proof fn severity_is_the_one_the_rule_names(rank: u8, other: u8)
    requires
        rank < 5,
        other < 5,
    ensures
        severity_of_rank(rank).spec_as_str() == ast_grep_severity_word(rank),
        rank != other ==> severity_of_rank(rank) != severity_of_rank(other),
        severity_of_rank(rank).spec_is_blocking() <==> (ast_grep_severity_word(rank) == "warning"@
            || ast_grep_severity_word(rank) == "error"@),
{
    reveal_strlit("off");
    reveal_strlit("hint");
    reveal_strlit("info");
    reveal_strlit("warning");
    reveal_strlit("error");
}

/// The header of a raw parsed rule.
pub open spec fn header_of(raw: RawRule) -> RuleHeader {
    RuleHeader {
        id: raw.id,
        message: raw.message,
        severity: severity_of_rank(raw.severity_rank),
        language: raw.language,
        has_fix: raw.has_fix,
    }
}

/// Every document of a rule YAML, in order, or why it cannot be parsed.
pub open spec fn spec_parse_rules(yaml: Seq<char>) -> Result<Seq<RuleHeader>, NormaError> {
    match ast_grep_rule_documents(yaml) {
        Ok(docs) => if docs.len() == 0 {
            Err(NormaError::NoRuleDocument)
        } else {
            Ok(docs.map_values(|raw: RawRule| header_of(raw)))
        },
        Err(e) => Err(NormaError::InvalidRule(e)),
    }
}

/// The first document of a rule YAML, or why it cannot be parsed.
pub open spec fn spec_parse_rule(yaml: Seq<char>) -> Result<RuleHeader, NormaError> {
    match spec_parse_rules(yaml) {
        Ok(docs) => Ok(docs[0]),
        Err(e) => Err(e),
    }
}

/// Parses a full, possibly multi-document (`---`-separated) ast-grep rule
/// YAML and returns every document it contains, in document order; fails
/// when ast-grep refuses it or it contains no document at all.
pub fn parse_rules(rule_yaml: &str) -> (r: Result<Vec<RuleHeader>, NormaError>)
    ensures
        match spec_parse_rules(rule_yaml@) {
            Ok(docs) => r matches Ok(v) && v@ == docs,
            Err(e) => r == Err::<Vec<RuleHeader>, NormaError>(e),
        },
{
    match rule_documents(rule_yaml) {
        Ok(raws) => {
            if raws.len() == 0 {
                return Err(NormaError::NoRuleDocument);
            }
            let mut headers: Vec<RuleHeader> = Vec::new();
            let mut raws = raws;
            let ghost all = raws@;
            let mut i: usize = 0;
            let n = raws.len();
            while i < n
                invariant
                    n == all.len(),
                    0 <= i <= n,
                    raws@ == all.skip(i as int),
                    headers@ == all.take(i as int).map_values(|raw: RawRule| header_of(raw)),
                decreases n - i,
            {
                let raw = raws.remove(0);
                headers.push(
                    RuleHeader {
                        id: raw.id,
                        message: raw.message,
                        severity: severity_from_ast_grep(raw.severity_rank),
                        language: raw.language,
                        has_fix: raw.has_fix,
                    },
                );
                assert(all.take(i as int + 1) =~= all.take(i as int).push(all[i as int]));
                assert(raws@ =~= all.skip(i as int + 1));
                i = i + 1;
            }
            assert(all.take(n as int) =~= all);
            Ok(headers)
        },
        Err(e) => Err(NormaError::InvalidRule(e)),
    }
}

/// Parses a rule YAML and returns its first document (every later one is
/// discarded); fails as `parse_rules` does.
pub fn parse_rule(rule_yaml: &str) -> (r: Result<RuleHeader, NormaError>)
    ensures
        match spec_parse_rule(rule_yaml@) {
            Ok(h) => r == Ok::<RuleHeader, NormaError>(h),
            Err(e) => r == Err::<RuleHeader, NormaError>(e),
        },
{
    let mut docs = parse_rules(rule_yaml)?;
    Ok(docs.remove(0))
}

/// The outcome of the two structural checks a parsed rule must pass before
/// it becomes a `Pattern`: a non-empty `id` and a supported language.
/// `Ok` carries the canonical key of the rule's language.
pub open spec fn spec_check_registerable(h: RuleHeader) -> Result<Seq<char>, NormaError> {
    if h.id@.len() == 0 {
        Err(NormaError::MissingRuleId)
    } else {
        match spec_language_key(h.language@) {
            Some(k) => Ok(k),
            None => Err(NormaError::UnsupportedRuleLanguage { language: h.language }),
        }
    }
}

/// Whether and how a rule YAML can be registered: its first document and
/// that document's language key, or why not. `Pattern::from_rule` and
/// `test_rule` both accept exactly the rule YAMLs for which this is `Ok`.
pub open spec fn spec_registration(yaml: Seq<char>) -> Result<(RuleHeader, Seq<char>), NormaError> {
    match spec_parse_rule(yaml) {
        Ok(h) => match spec_check_registerable(h) {
            Ok(k) => Ok((h, k)),
            Err(e) => Err(e),
        },
        Err(e) => Err(e),
    }
}

/// The two structural checks of a parsed rule (see
/// `spec_check_registerable`); returns the language's canonical key.
pub fn check_registerable(h: &RuleHeader) -> (r: Result<String, NormaError>)
    ensures
        match spec_check_registerable(*h) {
            Ok(k) => r matches Ok(key) && key@ == k,
            Err(e) => r == Err::<String, NormaError>(e),
        },
{
    if h.id.as_str().is_empty() {
        return Err(NormaError::MissingRuleId);
    }
    match language_key(h.language.as_str()) {
        Some(k) => Ok(k),
        None => Err(NormaError::UnsupportedRuleLanguage { language: h.language.clone() }),
    }
}

impl Pattern {
    /// The only checked way to build a `Pattern`: parses `rule` (a full
    /// ast-grep rule YAML) and derives `id`, `language` and `severity` from
    /// its first document. Fails if `rule` does not parse, has an empty
    /// `id`, or targets a language norma does not support.
    pub fn from_rule(
        name: String,
        description: String,
        category: Option<String>,
        rule: String,
        enabled: bool,
        created_at: Timestamp,
        updated_at: Timestamp,
    ) -> (r: Result<Pattern, NormaError>)
        ensures
            match spec_registration(rule@) {
                Ok((h, key)) => r matches Ok(p) && p.spec_id() == h.id@ && p.spec_language() == key
                    && p.spec_severity() == h.severity && p.spec_rule() == rule@
                    && p.spec_name() == name && p.spec_description() == description
                    && p.spec_category() == category && p.spec_enabled() == enabled
                    && p.spec_created_at() == created_at && p.spec_updated_at() == updated_at,
                Err(e) => r == Err::<Pattern, NormaError>(e),
            },
    {
        let h = parse_rule(rule.as_str())?;
        let language = check_registerable(&h)?;
        Ok(
            Pattern::from_trusted_row(
                h.id,
                name,
                description,
                category,
                language,
                h.severity,
                rule,
                enabled,
                created_at,
                updated_at,
            ),
        )
    }
}

// ---------------------------------------------------------------------
// Validation
// ---------------------------------------------------------------------

/// Pattern id of the synthetic warning `validate` adds when no enabled
/// pattern is registered for the requested language.
pub const NO_COVERAGE_PATTERN_ID: &'static str = "__norma_no_coverage__";

/// The suggested fix shown for a match: the fixer's replacement decoded
/// (lossily) as UTF-8, when the rule has a fixer.
pub open spec fn suggested_fix_of(m: RuleMatch) -> Option<Seq<char>> {
    match first_edit(m) {
        Some(e) => Some(crate::stdlib::std_utf8_lossy(e.2@)),
        None => None,
    }
}

/// The violation reported for one match, tagged with catalog metadata.
pub open spec fn match_violation(
    id: Seq<char>,
    name: Seq<char>,
    severity: Severity,
    message: Seq<char>,
    m: RuleMatch,
) -> ViolationView {
    ViolationView {
        pattern_id: id,
        pattern_name: name,
        severity: severity,
        file: None,
        line: m.line,
        column: m.column,
        matched_text: m.text@,
        message: message,
        suggested_fix: suggested_fix_of(m),
    }
}

/// The violations reported for a sequence of matches.
pub open spec fn match_violations(
    id: Seq<char>,
    name: Seq<char>,
    severity: Severity,
    message: Seq<char>,
    ms: Seq<RuleMatch>,
) -> Seq<ViolationView> {
    ms.map_values(|m: RuleMatch| match_violation(id, name, severity, message, m))
}

/// Runs one rule (the first document of `rule_yaml`) against `source` and
/// returns every match as a violation tagged with the given catalog
/// metadata, with `suggested_fix` filled in when the rule has a `fix:`.
fn find_violations(
    pattern_id: &str,
    pattern_name: &str,
    severity: Severity,
    message: &str,
    rule_yaml: &str,
    source: &str,
) -> (r: Vec<PatternViolation>)
    ensures
        violation_views(r@) == match_violations(
            pattern_id@,
            pattern_name@,
            severity,
            message@,
            ast_grep_rule_matches(rule_yaml@, source@),
        ),
{
    let matches = rule_matches(rule_yaml, source);
    let mut found: Vec<PatternViolation> = Vec::new();
    let mut i: usize = 0;
    while i < matches.len()
        invariant
            matches@ == ast_grep_rule_matches(rule_yaml@, source@),
            0 <= i <= matches@.len(),
            violation_views(found@) == match_violations(
                pattern_id@,
                pattern_name@,
                severity,
                message@,
                matches@.take(i as int),
            ),
        decreases matches@.len() - i,
    {
        let ghost before = found@;
        let m = &matches[i];
        let suggested_fix = match first_edit_of(m) {
            Some(e) => Some(crate::stdlib::utf8_lossy(e.2.as_slice())),
            None => None,
        };
        found.push(
            PatternViolation {
                pattern_id: owned(pattern_id),
                pattern_name: owned(pattern_name),
                severity,
                location: CodeLocation { file: None, line: m.line, column: m.column },
                matched_text: m.text.clone(),
                message: owned(message),
                suggested_fix,
            },
        );
        assert(found@.last()@ == match_violation(
            pattern_id@,
            pattern_name@,
            severity,
            message@,
            matches@[i as int],
        ));
        assert(violation_views(found@) =~= violation_views(before).push(found@.last()@));
        assert(matches@.take(i as int + 1) =~= matches@.take(i as int).push(matches@[i as int]));
        assert(violation_views(found@) =~= match_violations(
            pattern_id@,
            pattern_name@,
            severity,
            message@,
            matches@.take(i as int + 1),
        ));
        i = i + 1;
    }
    assert(matches@.take(matches@.len() as int) =~= matches@);
    found
}

/// A synthetic, zero-location, warning-severity violation that reports
/// something about coverage rather than a real match.
pub open spec fn coverage_view(id: Seq<char>, name: Seq<char>, message: Seq<char>) -> ViolationView {
    ViolationView {
        pattern_id: id,
        pattern_name: name,
        severity: Severity::Warning,
        file: None,
        line: 0,
        column: 0,
        matched_text: Seq::empty(),
        message: message,
        suggested_fix: None,
    }
}

/// A coverage warning carrying `message` under the given id and name.
pub fn coverage_warning(pattern_id: &str, pattern_name: &str, message: String) -> (r: PatternViolation)
    ensures
        r@ == coverage_view(pattern_id@, pattern_name@, message@),
{
    PatternViolation {
        pattern_id: owned(pattern_id),
        pattern_name: owned(pattern_name),
        severity: Severity::Warning,
        location: CodeLocation { file: None, line: 0, column: 0 },
        matched_text: String::new(),
        message,
        suggested_fix: None,
    }
}

/// How many violations have a blocking (warning or error) severity.
pub open spec fn blocking_count(vs: Seq<ViolationView>) -> nat
    decreases vs.len(),
{
    if vs.len() == 0 {
        0
    } else {
        blocking_count(vs.drop_last()) + if vs.last().severity.spec_is_blocking() {
            1nat
        } else {
            0nat
        }
    }
}

/// Whether no violation has a blocking severity.
pub open spec fn none_blocking(vs: Seq<ViolationView>) -> bool {
    forall|i: int| 0 <= i < vs.len() ==> !(#[trigger] vs[i].severity).spec_is_blocking()
}

/// The score of `blocking` blocking matches over `checked` patterns:
/// `1 - blocking / checked`, never below 0, and 0 when nothing was checked.
pub open spec fn score_of(blocking: nat, checked: nat) -> Score {
    if checked == 0 {
        Score { deducted: 1, out_of: 1 }
    } else if blocking >= checked {
        Score { deducted: checked as usize, out_of: checked as usize }
    } else {
        Score { deducted: blocking as usize, out_of: checked as usize }
    }
}

/// How many of `violations` have a blocking severity.
pub fn count_blocking(violations: &[PatternViolation]) -> (r: usize)
    ensures
        r == blocking_count(violation_views(violations@)),
        r <= violations@.len(),
{
    let mut blocking: usize = 0;
    let mut i: usize = 0;
    while i < violations.len()
        invariant
            0 <= i <= violations@.len(),
            blocking == blocking_count(violation_views(violations@.take(i as int))),
            blocking <= i,
        decreases violations@.len() - i,
    {
        assert(violation_views(violations@.take(i as int + 1)).drop_last() =~= violation_views(
            violations@.take(i as int),
        ));
        if violations[i].severity.is_blocking() {
            blocking = blocking + 1;
        }
        i = i + 1;
    }
    assert(violations@.take(violations@.len() as int) =~= violations@);
    blocking
}

/// The score of a set of matches over `checked_patterns` patterns: one
/// minus the fraction of blocking matches, clamped at zero; zero when no
/// pattern was checked. Informational matches do not lower it.
pub fn score_from(violations: &[PatternViolation], checked_patterns: usize) -> (r: Score)
    ensures
        r == score_of(blocking_count(violation_views(violations@)), checked_patterns as nat),
        r.deducted <= r.out_of,
        r.out_of >= 1,
{
    if checked_patterns == 0 {
        return Score { deducted: 1, out_of: 1 };
    }
    let blocking = count_blocking(violations);
    if blocking >= checked_patterns {
        Score { deducted: checked_patterns, out_of: checked_patterns }
    } else {
        Score { deducted: blocking, out_of: checked_patterns }
    }
}

/// Whether no violation has a blocking severity (an informational-only
/// result passes).
pub fn passed_from(violations: &[PatternViolation]) -> (r: bool)
    ensures
        r == none_blocking(violation_views(violations@)),
{
    let mut i: usize = 0;
    while i < violations.len()
        invariant
            0 <= i <= violations@.len(),
            forall|k: int|
                0 <= k < i ==> !(#[trigger] violations@[k]).severity.spec_is_blocking(),
        decreases violations@.len() - i,
    {
        if violations[i].severity.is_blocking() {
            assert(violation_views(violations@)[i as int].severity.spec_is_blocking());
            return false;
        }
        i = i + 1;
    }
    true
}

/// Whether `validate` runs pattern `p` for the language key `key`.
pub open spec fn is_selected(p: Pattern, key: Seq<char>) -> bool {
    p.spec_enabled() && p.spec_language() == key
}

/// The violations the selected, parsable patterns among `ps` find in
/// `source`, pattern by pattern, each tagged with its pattern's id, name,
/// severity and description.
pub open spec fn run_matches(ps: Seq<Pattern>, key: Seq<char>, source: Seq<char>) -> Seq<
    ViolationView,
>
    decreases ps.len(),
{
    if ps.len() == 0 {
        Seq::empty()
    } else {
        let p = ps.last();
        run_matches(ps.drop_last(), key, source) + if is_selected(p, key) && spec_parse_rule(
            p.spec_rule(),
        ) is Ok {
            match_violations(
                p.spec_id(),
                p.spec_name()@,
                p.spec_severity(),
                p.spec_description()@,
                ast_grep_rule_matches(p.spec_rule(), source),
            )
        } else {
            Seq::empty()
        }
    }
}

/// How many of the selected patterns among `ps` have a parsable rule.
pub open spec fn run_checked(ps: Seq<Pattern>, key: Seq<char>) -> nat
    decreases ps.len(),
{
    if ps.len() == 0 {
        0
    } else {
        run_checked(ps.drop_last(), key) + if is_selected(ps.last(), key) && spec_parse_rule(
            ps.last().spec_rule(),
        ) is Ok {
            1nat
        } else {
            0nat
        }
    }
}

/// The selected patterns among `ps` whose rule no longer parses: their id
/// and the parse error, in order.
pub open spec fn run_skipped(ps: Seq<Pattern>, key: Seq<char>) -> Seq<(Seq<char>, NormaError)>
    decreases ps.len(),
{
    if ps.len() == 0 {
        Seq::empty()
    } else {
        let p = ps.last();
        run_skipped(ps.drop_last(), key) + match spec_parse_rule(p.spec_rule()) {
            Err(e) => if is_selected(p, key) {
                seq![(p.spec_id(), e)]
            } else {
                Seq::empty()
            },
            Ok(_) => Seq::empty(),
        }
    }
}

/// The warning reported for a pattern whose rule no longer parses.
pub open spec fn skip_warning(id: Seq<char>, e: NormaError) -> ViolationView {
    coverage_view(
        id,
        "Unparsable Pattern"@,
        "this pattern's stored rule could not be parsed and was skipped: "@ + e.spec_message(),
    )
}

/// The warning reported when nothing was registered for a language.
pub open spec fn no_coverage_view(key: Seq<char>) -> ViolationView {
    coverage_view(
        NO_COVERAGE_PATTERN_ID@,
        "No Coverage"@,
        "no enabled patterns are registered for language "@ + crate::stdlib::std_debug_str(key)
            + " -- nothing was validated"@,
    )
}

/// Everything `validate` reports: the matches, then one warning per
/// pattern whose rule no longer parses, then, if no pattern was checked or
/// skipped, the no-coverage warning.
pub open spec fn spec_validation_violations(
    ps: Seq<Pattern>,
    key: Seq<char>,
    source: Seq<char>,
) -> Seq<ViolationView> {
    run_matches(ps, key, source) + run_skipped(ps, key).map_values(
        |s: (Seq<char>, NormaError)| skip_warning(s.0, s.1),
    ) + if run_checked(ps, key) == 0 && run_skipped(ps, key).len() == 0 {
        seq![no_coverage_view(key)]
    } else {
        Seq::empty()
    }
}

/// A validation result that matches `spec_validation_violations` for the
/// given patterns, language key and source.
pub open spec fn is_validation_of(
    r: ValidationResult,
    ps: Seq<Pattern>,
    key: Seq<char>,
    source: Seq<char>,
) -> bool {
    &&& violation_views(r.violations@) == spec_validation_violations(ps, key, source)
    &&& r.checked_patterns == run_checked(ps, key)
    &&& r.score == score_of(blocking_count(run_matches(ps, key, source)), run_checked(ps, key))
    &&& r.passed == none_blocking(spec_validation_violations(ps, key, source))
}

/// Whether `message` ends with `tail`.
pub open spec fn ends_with(message: Seq<char>, tail: Seq<char>) -> bool {
    tail.len() <= message.len() && message.subrange(message.len() - tail.len(), message.len() as int)
        == tail
}

/// Every selected pattern whose rule does not parse is listed by
/// `run_skipped` with its parse error.
proof fn unparsable_patterns_are_listed(ps: Seq<Pattern>, key: Seq<char>)
    ensures
        forall|j: int|
            0 <= j < ps.len() && is_selected(ps[j], key) && #[trigger] spec_parse_rule(ps[j].spec_rule()) is Err
                ==> run_skipped(ps, key).contains((ps[j].spec_id(), spec_parse_rule(ps[j].spec_rule())->Err_0)),
    decreases ps.len(),
{
    if ps.len() > 0 {
        let q = ps.drop_last();
        unparsable_patterns_are_listed(q, key);
        let prev = run_skipped(q, key);
        let all = run_skipped(ps, key);
        assert forall|j: int|
            0 <= j < ps.len() && is_selected(ps[j], key) && #[trigger] spec_parse_rule(ps[j].spec_rule()) is Err
                implies all.contains((ps[j].spec_id(), spec_parse_rule(ps[j].spec_rule())->Err_0)) by {
            let x = (ps[j].spec_id(), spec_parse_rule(ps[j].spec_rule())->Err_0);
            if j < q.len() {
                assert(q[j] == ps[j]);
                let w = choose|w: int| 0 <= w < prev.len() && prev[w] == x;
                assert(all[w] == prev[w]);
            } else {
                assert(ps[j] == ps.last());
                assert(all[prev.len() as int] == x);
            }
        }
    }
}

/// A pattern that is skipped is never silent: for every enabled pattern of
/// the language whose stored rule does not parse, whatever the other
/// patterns are and however many of them were checked, the violations
/// `validate` reports include a blocking warning under that pattern's id
/// whose message ends with the parse error; so a run with such a pattern
/// never passes.
pub proof fn unparsable_patterns_are_never_silent(ps: Seq<Pattern>, key: Seq<char>, source: Seq<char>)
    ensures
        forall|j: int|
            0 <= j < ps.len() && is_selected(ps[j], key) && #[trigger] spec_parse_rule(ps[j].spec_rule()) is Err
                ==> exists|k: int|
                0 <= k < spec_validation_violations(ps, key, source).len() && {
                    let v = #[trigger] spec_validation_violations(ps, key, source)[k];
                    &&& v.pattern_id == ps[j].spec_id()
                    &&& v.severity.spec_is_blocking()
                    &&& ends_with(v.message, spec_parse_rule(ps[j].spec_rule())->Err_0.spec_message())
                },
        (exists|j: int|
            0 <= j < ps.len() && is_selected(ps[j], key) && #[trigger] spec_parse_rule(ps[j].spec_rule()) is Err)
            ==> !none_blocking(spec_validation_violations(ps, key, source)),
{
    unparsable_patterns_are_listed(ps, key);
    let vs = spec_validation_violations(ps, key, source);
    let m = run_matches(ps, key, source);
    let sk = run_skipped(ps, key);
    let warnings = sk.map_values(|s: (Seq<char>, NormaError)| skip_warning(s.0, s.1));
    assert forall|j: int|
        0 <= j < ps.len() && is_selected(ps[j], key) && #[trigger] spec_parse_rule(ps[j].spec_rule()) is Err
            implies exists|k: int|
            0 <= k < vs.len() && {
                let v = #[trigger] vs[k];
                &&& v.pattern_id == ps[j].spec_id()
                &&& v.severity.spec_is_blocking()
                &&& ends_with(v.message, spec_parse_rule(ps[j].spec_rule())->Err_0.spec_message())
            } by {
        let e = spec_parse_rule(ps[j].spec_rule())->Err_0;
        let w = choose|w: int| 0 <= w < sk.len() && sk[w] == (ps[j].spec_id(), e);
        let k = m.len() + w;
        assert(vs[k] == warnings[w]);
        let msg = "this pattern's stored rule could not be parsed and was skipped: "@ + e.spec_message();
        assert(vs[k].message == msg);
        assert(msg.subrange(msg.len() - e.spec_message().len(), msg.len() as int) =~= e.spec_message());
    }
    if exists|j: int|
        0 <= j < ps.len() && is_selected(ps[j], key) && #[trigger] spec_parse_rule(ps[j].spec_rule()) is Err {
        let j = choose|j: int|
            0 <= j < ps.len() && is_selected(ps[j], key) && #[trigger] spec_parse_rule(ps[j].spec_rule()) is Err;
        let k = choose|k: int|
            0 <= k < vs.len() && {
                let v = #[trigger] vs[k];
                &&& v.pattern_id == ps[j].spec_id()
                &&& v.severity.spec_is_blocking()
                &&& ends_with(v.message, spec_parse_rule(ps[j].spec_rule())->Err_0.spec_message())
            };
        assert(vs[k].severity.spec_is_blocking());
    }
}

/// The views of the `(pattern id, parse error)` pairs `validate` collects.
pub open spec fn skipped_views(v: Seq<(String, NormaError)>) -> Seq<(Seq<char>, NormaError)> {
    v.map_values(|s: (String, NormaError)| (s.0@, s.1))
}

/// A rule that fails to parse fails with a message of its own (one that
/// does not list the supported languages).
pub proof fn parse_errors_have_plain_messages(yaml: Seq<char>)
    ensures
        spec_parse_rule(yaml) matches Err(e) ==> !e.lists_languages(),
{
}

proof fn run_step(ps: Seq<Pattern>, i: int, key: Seq<char>, source: Seq<char>)
    requires
        0 <= i < ps.len(),
    ensures
        ps.take(i + 1).drop_last() == ps.take(i),
        ps.take(i + 1).last() == ps[i],
{
    assert(ps.take(i + 1).drop_last() =~= ps.take(i));
}

/// Runs every enabled pattern registered under `language`'s canonical key
/// against `source` and aggregates the result: every match, a warning for
/// each pattern whose stored rule no longer parses (skipped, never
/// silently), and a warning when nothing was registered for the language
/// at all -- so "checked and clean" can never look like "checked nothing".
/// Fails if `language` is not a language norma supports.
pub fn validate(source: &str, language: &str, patterns: &[Pattern]) -> (r: Result<
    ValidationResult,
    NormaError,
>)
    ensures
        match spec_resolve_language(language@) {
            Some(key) => r matches Ok(res) && is_validation_of(res, patterns@, key, source@),
            None => r matches Err(NormaError::UnsupportedLanguage { requested }) && requested@
                == language@,
        },
{
    let key = resolve_language(language)?;
    let start = crate::stdlib::instant_now();
    let mut violations: Vec<PatternViolation> = Vec::new();
    let mut checked_patterns: usize = 0;
    let mut skipped: Vec<(String, NormaError)> = Vec::new();
    let mut i: usize = 0;
    while i < patterns.len()
        invariant
            0 <= i <= patterns@.len(),
            checked_patterns <= i,
            violation_views(violations@) == run_matches(patterns@.take(i as int), key@, source@),
            checked_patterns == run_checked(patterns@.take(i as int), key@),
            skipped_views(skipped@) == run_skipped(patterns@.take(i as int), key@),
        decreases patterns@.len() - i,
    {
        proof {
            run_step(patterns@, i as int, key@, source@);
            crate::models::pattern_accessors(patterns@[i as int]);
        }
        let p = &patterns[i];
        let ghost before_v = violations@;
        let ghost before_s = skipped@;
        if p.enabled && str_eq(p.language(), key.as_str()) {
            match parse_rule(p.rule()) {
                Ok(_) => {
                    checked_patterns = checked_patterns + 1;
                    let mut found = find_violations(
                        p.id(),
                        p.name.as_str(),
                        p.severity(),
                        p.description.as_str(),
                        p.rule(),
                        source,
                    );
                    let ghost added = found@;
                    violations.append(&mut found);
                    assert(violation_views(violations@) =~= violation_views(before_v)
                        + violation_views(added));
                },
                Err(e) => {
                    skipped.push((owned(p.id()), e));
                    assert(skipped_views(skipped@) =~= skipped_views(before_s).push(
                        (p.spec_id(), e),
                    ));
                },
            }
        }
        i = i + 1;
    }
    assert(patterns@.take(patterns@.len() as int) =~= patterns@);
    let ghost matched = violations@;
    let score = score_from(&violations, checked_patterns);
    let mut k: usize = 0;
    while k < skipped.len()
        invariant
            0 <= k <= skipped@.len(),
            skipped_views(skipped@) == run_skipped(patterns@, key@),
            violation_views(violations@) == violation_views(matched) + run_skipped(
                patterns@,
                key@,
            ).take(k as int).map_values(|s: (Seq<char>, NormaError)| skip_warning(s.0, s.1)),
        decreases skipped@.len() - k,
    {
        let ghost before = violations@;
        proof {
            assert(skipped_views(skipped@)[k as int] == (skipped@[k as int].0@, skipped@[k as int].1));
            skipped_is_parse_errors(patterns@, key@, k as int);
        }
        let mut message = owned("this pattern's stored rule could not be parsed and was skipped: ");
        message.append(skipped[k].1.message().as_str());
        violations.push(coverage_warning(skipped[k].0.as_str(), "Unparsable Pattern", message));
        assert(run_skipped(patterns@, key@).take(k as int + 1) =~= run_skipped(
            patterns@,
            key@,
        ).take(k as int).push(run_skipped(patterns@, key@)[k as int]));
        assert(violation_views(violations@) =~= violation_views(before).push(violations@.last()@));
        k = k + 1;
    }
    assert(run_skipped(patterns@, key@).take(skipped@.len() as int) =~= run_skipped(
        patterns@,
        key@,
    ));
    if checked_patterns == 0 && skipped.len() == 0 {
        let ghost before = violations@;
        let mut message = owned("no enabled patterns are registered for language ");
        message.append(crate::stdlib::debug_quoted(key.as_str()).as_str());
        message.append(" -- nothing was validated");
        violations.push(coverage_warning(NO_COVERAGE_PATTERN_ID, "No Coverage", message));
        assert(violation_views(violations@) =~= violation_views(before).push(violations@.last()@));
    }
    assert(violation_views(violations@) =~= spec_validation_violations(patterns@, key@, source@));
    let passed = passed_from(&violations);
    Ok(
        ValidationResult {
            violations,
            passed,
            score,
            checked_patterns,
            duration_ms: crate::stdlib::elapsed_millis(&start),
        },
    )
}

/// Every pattern `validate` skips was skipped for a parse error.
proof fn skipped_is_parse_errors(ps: Seq<Pattern>, key: Seq<char>, k: int)
    requires
        0 <= k < run_skipped(ps, key).len(),
    ensures
        !run_skipped(ps, key)[k].1.lists_languages(),
    decreases ps.len(),
{
    let prev = run_skipped(ps.drop_last(), key);
    if k < prev.len() {
        skipped_is_parse_errors(ps.drop_last(), key, k);
    } else {
        parse_errors_have_plain_messages(ps.last().spec_rule());
    }
}

/// A blocking count of zero means no violation is blocking.
pub proof fn blocking_count_zero_iff_none_blocking(vs: Seq<ViolationView>)
    ensures
        (blocking_count(vs) == 0) == none_blocking(vs),
    decreases vs.len(),
{
    if vs.len() > 0 {
        blocking_count_zero_iff_none_blocking(vs.drop_last());
        if none_blocking(vs) {
            assert forall|i: int| 0 <= i < vs.drop_last().len() implies !(
            #[trigger] vs.drop_last()[i].severity).spec_is_blocking() by {
                assert(vs.drop_last()[i] == vs[i]);
            }
        }
        if blocking_count(vs) == 0 {
            assert forall|i: int| 0 <= i < vs.len() implies !(
            #[trigger] vs[i].severity).spec_is_blocking() by {
                if i < vs.len() - 1 {
                    assert(vs.drop_last()[i] == vs[i]);
                }
            }
        }
    }
}

/// "Checked and clean" and "checked nothing" are never the same result:
/// when no pattern was checked, validation reports a warning (a skipped
/// pattern or the no-coverage warning), so it fails with a zero score.
pub proof fn nothing_checked_never_passes(ps: Seq<Pattern>, key: Seq<char>, source: Seq<char>)
    requires
        run_checked(ps, key) == 0,
    ensures
        !none_blocking(spec_validation_violations(ps, key, source)),
        score_of(blocking_count(run_matches(ps, key, source)), run_checked(ps, key)) == (Score {
            deducted: 1,
            out_of: 1,
        }),
{
    let all = spec_validation_violations(ps, key, source);
    let m = run_matches(ps, key, source);
    let sk = run_skipped(ps, key);
    if sk.len() > 0 {
        let w = sk.map_values(|s: (Seq<char>, NormaError)| skip_warning(s.0, s.1));
        assert(all[m.len() as int] == w[0]);
        assert(all[m.len() as int].severity.spec_is_blocking());
    } else {
        assert(all[m.len() as int] == no_coverage_view(key));
    }
}

/// Informational matches are visible but never count against a run: when
/// every pattern parses and no match is blocking, validation passes with a
/// full score.
pub proof fn informational_matches_keep_a_full_score(
    ps: Seq<Pattern>,
    key: Seq<char>,
    source: Seq<char>,
)
    requires
        none_blocking(run_matches(ps, key, source)),
        run_checked(ps, key) > 0,
        run_skipped(ps, key).len() == 0,
    ensures
        none_blocking(spec_validation_violations(ps, key, source)),
        score_of(blocking_count(run_matches(ps, key, source)), run_checked(ps, key)).deducted == 0,
{
    blocking_count_zero_iff_none_blocking(run_matches(ps, key, source));
    let all = spec_validation_violations(ps, key, source);
    let m = run_matches(ps, key, source);
    assert(all =~= m);
}

/// Only the enabled patterns registered for the language take part in a
/// validation: `validate` reports the same for `ps` as for the patterns
/// of `ps` that are selected.
pub proof fn only_selected_patterns_count(ps: Seq<Pattern>, key: Seq<char>, source: Seq<char>)
    ensures
        spec_validation_violations(ps, key, source) == spec_validation_violations(
            ps.filter(|p: Pattern| is_selected(p, key)),
            key,
            source,
        ),
        run_checked(ps, key) == run_checked(ps.filter(|p: Pattern| is_selected(p, key)), key),
        run_skipped(ps, key) == run_skipped(ps.filter(|p: Pattern| is_selected(p, key)), key),
        run_matches(ps, key, source) == run_matches(
            ps.filter(|p: Pattern| is_selected(p, key)),
            key,
            source,
        ),
    decreases ps.len(),
{
    let sel = |p: Pattern| is_selected(p, key);
    let f = ps.filter(sel);
    reveal(Seq::filter);
    if ps.len() > 0 {
        let q = ps.drop_last();
        let p = ps.last();
        only_selected_patterns_count(q, key, source);
        let fq = q.filter(sel);
        if sel(p) {
            assert(f == fq.push(p));
            assert(f.drop_last() =~= fq);
        } else {
            assert(f == fq);
        }
        assert(run_matches(ps, key, source) == run_matches(f, key, source));
        assert(run_checked(ps, key) == run_checked(f, key));
        assert(run_skipped(ps, key) == run_skipped(f, key));
    }
}

/// What a dry run of a candidate rule reports: its matches tagged with the
/// rule's own id (as both id and name), severity and message, as one
/// checked pattern.
pub open spec fn is_dry_run_of(
    r: ValidationResult,
    h: RuleHeader,
    yaml: Seq<char>,
    source: Seq<char>,
) -> bool {
    let vs = match_violations(h.id@, h.id@, h.severity, h.message@, ast_grep_rule_matches(yaml, source));
    &&& violation_views(r.violations@) == vs
    &&& r.checked_patterns == 1
    &&& r.score == score_of(blocking_count(vs), 1)
    &&& r.passed == none_blocking(vs)
}

/// Compiles a candidate rule and runs it against `source` without
/// registering anything. Accepts exactly the rule YAMLs that
/// `Pattern::from_rule` accepts (both are phrased over
/// `spec_registration`), so a dry run that succeeds predicts a
/// registration that succeeds, and one that fails predicts the same error.
pub fn test_rule(rule_yaml: &str, source: &str) -> (r: Result<ValidationResult, NormaError>)
    ensures
        match spec_registration(rule_yaml@) {
            Ok((h, _)) => r matches Ok(res) && is_dry_run_of(res, h, rule_yaml@, source@),
            Err(e) => r == Err::<ValidationResult, NormaError>(e),
        },
{
    let start = crate::stdlib::instant_now();
    let h = parse_rule(rule_yaml)?;
    check_registerable(&h)?;
    let violations = find_violations(
        h.id.as_str(),
        h.id.as_str(),
        h.severity,
        h.message.as_str(),
        rule_yaml,
        source,
    );
    let score = score_from(&violations, 1);
    let passed = passed_from(&violations);
    Ok(
        ValidationResult {
            violations,
            passed,
            score,
            checked_patterns: 1,
            duration_ms: crate::stdlib::elapsed_millis(&start),
        },
    )
}

} // verus!
