//! The errors of the rule engine.

use crate::ast_grep::RuleError;
use crate::stdlib::{debug_quoted, std_debug_str};
use crate::text::{join, joined, owned};
use vstd::prelude::*;
use vstd::string::*;

verus! {

/// Why the rule engine refused a request.
#[derive(Debug, Clone, PartialEq, Eq)]
pub enum NormaError {
    /// A language string that names no language norma supports.
    UnsupportedLanguage { requested: String },
    /// Rule YAML without any `RuleConfig` document.
    NoRuleDocument,
    /// Rule YAML that ast-grep refused.
    InvalidRule(RuleError),
    /// A rule whose top-level `id` is empty or missing.
    MissingRuleId,
    /// A rule for a language (ast-grep's name) without a canonical key.
    UnsupportedRuleLanguage { language: String },
    /// A fix whose range lies outside the source it was computed for.
    FixOutOfRange,
    /// Fixes whose result is not valid UTF-8.
    NonUtf8Output,
    /// Text that is not valid YAML, with the YAML parser's message.
    InvalidYaml { message: String },
}

impl NormaError {
    /// Whether the message of this error lists the supported languages.
    pub open spec fn lists_languages(self) -> bool {
        self is UnsupportedLanguage || self is UnsupportedRuleLanguage
    }

    /// The message of this error; for the two unsupported-language errors,
    /// the part that precedes the list of supported languages.
    pub open spec fn spec_message(self) -> Seq<char> {
        match self {
            NormaError::UnsupportedLanguage { requested } => "unsupported language: "@ + std_debug_str(
                requested@,
            ) + " (norma supports: "@,
            NormaError::NoRuleDocument => "rule YAML did not contain a RuleConfig document"@,
            NormaError::InvalidRule(e) => e.message@,
            NormaError::MissingRuleId => "rule YAML must set a non-empty top-level `id`"@,
            NormaError::UnsupportedRuleLanguage { language } => "unsupported language: "@
                + language@ + " (norma supports: "@,
            NormaError::FixOutOfRange => "apply_fixes got a fix outside the source; refusing it"@,
            NormaError::NonUtf8Output => "apply_fixes produced non-UTF-8 output; refusing it"@,
            NormaError::InvalidYaml { message } => message@,
        }
    }

    /// Whether `m` is this error's message: `spec_message`, followed, for
    /// the two unsupported-language errors, by the supported language keys
    /// (in ast-grep's order of its languages) joined by `", "`, and `)`.
    pub open spec fn is_message_of(self, m: Seq<char>) -> bool {
        if self.lists_languages() {
            m == self.spec_message() + joined(
                crate::pattern_engine::spec_supported_keys(
                    crate::ast_grep::ast_grep_language_names(),
                ),
                ", "@,
            ) + ")"@
        } else {
            m == self.spec_message()
        }
    }

    /// The messages of the causes below this error, outermost first.
    pub open spec fn spec_causes(self) -> Seq<Seq<char>> {
        match self {
            NormaError::InvalidRule(e) => crate::text::views(e.causes@),
            _ => Seq::empty(),
        }
    }

    /// The error's message (its `Display` form).
    pub fn message(&self) -> (r: String)
        ensures
            self.is_message_of(r@),
    {
        match self {
            NormaError::UnsupportedLanguage { requested } => {
                let mut r = owned("unsupported language: ");
                r.append(debug_quoted(requested.as_str()).as_str());
                r.append(" (norma supports: ");
                let keys = crate::pattern_engine::supported_languages();
                r.append(join(&keys, ", ").as_str());
                r.append(")");
                r
            },
            NormaError::NoRuleDocument => owned("rule YAML did not contain a RuleConfig document"),
            NormaError::InvalidRule(e) => e.message.clone(),
            NormaError::MissingRuleId => owned("rule YAML must set a non-empty top-level `id`"),
            NormaError::UnsupportedRuleLanguage { language } => {
                let mut r = owned("unsupported language: ");
                r.append(language.as_str());
                r.append(" (norma supports: ");
                let keys = crate::pattern_engine::supported_languages();
                r.append(join(&keys, ", ").as_str());
                r.append(")");
                r
            },
            NormaError::FixOutOfRange => owned("apply_fixes got a fix outside the source; refusing it"),
            NormaError::NonUtf8Output => owned("apply_fixes produced non-UTF-8 output; refusing it"),
            NormaError::InvalidYaml { message } => message.clone(),
        }
    }

    /// The message of this error followed by those of its causes, joined
    /// by `": "`.
    pub fn chain_text(&self) -> (r: String)
        ensures
            !self.lists_languages() ==> r@ == joined(
                seq![self.spec_message()] + self.spec_causes(),
                ": "@,
            ),
            self.lists_languages() ==> self.is_message_of(r@),
    {
        let mut parts: Vec<String> = Vec::new();
        parts.push(self.message());
        if let NormaError::InvalidRule(e) = self {
            let mut i: usize = 0;
            while i < e.causes.len()
                invariant
                    0 <= i <= e.causes@.len(),
                    parts@.len() == i + 1,
                    !self.lists_languages() ==> parts@[0]@ == self.spec_message(),
                    forall|k: int| 0 <= k < i ==> parts@[k + 1]@ == (#[trigger] e.causes@[k])@,
                decreases e.causes@.len() - i,
            {
                parts.push(e.causes[i].clone());
                i = i + 1;
            }
            proof {
                if !self.lists_languages() {
                    assert(crate::text::views(parts@) =~= seq![self.spec_message()]
                        + self.spec_causes());
                }
            }
        } else {
            proof {
                if !self.lists_languages() {
                    assert(crate::text::views(parts@) =~= seq![self.spec_message()]
                        + self.spec_causes());
                }
            }
        }
        let r = join(&parts, ": ");
        proof {
            if self.lists_languages() {
                assert(crate::text::views(parts@) =~= seq![parts@[0]@]);
                assert(joined(seq![parts@[0]@], ": "@) == parts@[0]@);
            }
        }
        r
    }
}

} // verus!
