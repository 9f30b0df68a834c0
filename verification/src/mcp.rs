//! The parameters of the MCP tools and how a refused tool call is answered.

use crate::error::NormaError;
use crate::models::Pattern;
use crate::stdlib::{debug_quoted, std_debug_str};
use crate::text::owned;
use crate::pattern_store::RegisterPatternError;
use vstd::prelude::*;

verus! {

/// The parameters of `validate_pattern_compliance` and `apply_pattern_fix`:
/// source code and its language (a canonical key or an ast-grep alias).
#[derive(Debug, Clone, PartialEq)]
pub struct ValidateParams {
    pub code: String,
    pub language: String,
}

/// The parameters of `get_pattern_checklist`.
#[derive(Debug, Clone, PartialEq)]
pub struct LanguageParams {
    pub language: String,
}

/// The parameters of `test_pattern`: a full RuleConfig YAML and example
/// code to run it against; nothing is stored.
#[derive(Debug, Clone, PartialEq)]
pub struct TestPatternParams {
    pub rule: String,
    pub code: String,
}

/// The parameters of `register_pattern`; `category` may be left out.
#[derive(Debug, Clone, PartialEq)]
pub struct RegisterPatternParams {
    pub name: String,
    pub description: String,
    pub category: Option<String>,
    pub rule: String,
}

/// How a refused tool call is answered: as invalid parameters (the
/// caller's input was wrong) or as an internal error (the server failed),
/// each with its message.
#[derive(Debug, Clone, PartialEq)]
pub enum ToolFailure {
    InvalidParams(String),
    Internal(String),
}

/// A request the rule engine refused is the caller's mistake: invalid
/// parameters, with the error's message.
pub fn invalid_params(e: &NormaError) -> (r: ToolFailure)
    ensures
        r matches ToolFailure::InvalidParams(m) && e.is_message_of(m@),
{
    ToolFailure::InvalidParams(e.message())
}

/// A failed registration is answered by its cause: an invalid rule as
/// invalid parameters, a storage failure as an internal error, so that a
/// client never retries a storage fault as if its input were wrong.
pub fn register_failure(e: &RegisterPatternError) -> (r: ToolFailure)
    ensures
        match e {
            RegisterPatternError::InvalidRule(x) => r matches ToolFailure::InvalidParams(m)
                && x.is_message_of(m@),
            RegisterPatternError::Storage(s) => r matches ToolFailure::Internal(m) && m@ == s@,
        },
{
    match e {
        RegisterPatternError::InvalidRule(x) => invalid_params(x),
        RegisterPatternError::Storage(s) => ToolFailure::Internal(s.clone()),
    }
}

/// What `get_pattern_checklist` answers: the patterns for the language,
/// and, when there are none, a warning that says so, so that a language
/// with no coverage is not mistaken for a compliant one.
#[derive(Debug, Clone, PartialEq)]
pub struct Checklist {
    pub patterns: Vec<Pattern>,
    pub coverage_warning: Option<String>,
}

/// The checklist for the language key `key` with the patterns registered
/// for it: a coverage warning naming the language exactly when there are
/// none.
pub fn checklist(key: &str, patterns: Vec<Pattern>) -> (r: Checklist)
    ensures
        r.patterns@ == patterns@,
        (r.coverage_warning is Some) <==> patterns@.len() == 0,
        r.coverage_warning matches Some(w) ==> w@ == "no enabled patterns are registered for language "@
            + std_debug_str(key@),
{
    if patterns.len() == 0 {
        let mut w = owned("no enabled patterns are registered for language ");
        w.append(debug_quoted(key).as_str());
        Checklist { patterns, coverage_warning: Some(w) }
    } else {
        Checklist { patterns, coverage_warning: None }
    }
}

} // verus!
