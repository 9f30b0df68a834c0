//! The boundary to ast-grep: what norma reads of a parsed rule, of the
//! matches a rule finds in source code, and of ast-grep's language names.
//! Every item here marked `external_body` is trusted; its doc comment says
//! which ast-grep function it calls and what its contract claims.

use ast_grep_config::{from_yaml_string, GlobalRules};
use ast_grep_language::{LanguageExt, SupportLang};
use std::error::Error;
use std::str::FromStr;
use crate::stdlib::ascii_folded;
use vstd::prelude::*;

verus! {

/// What ast-grep reports of one parsed `RuleConfig` document.
#[derive(Debug, Clone)]
pub struct RawRule {
    /// The rule's top-level `id` (empty when the document has none).
    pub id: String,
    /// The rule's `message`.
    pub message: String,
    /// The position of the rule's `ast_grep_config::Severity` among that
    /// enum's variants: 0 off, 1 hint, 2 info, 3 warning, 4 error.
    pub severity_rank: u8,
    /// ast-grep's name of the rule's `language`, e.g. `"Rust"`.
    pub language: String,
    /// Whether the rule has a `fix:`.
    pub has_fix: bool,
}

/// Why ast-grep refused a rule YAML: the error's own message, then the
/// message of each underlying cause, outermost first.
#[derive(Debug, Clone, PartialEq, Eq)]
pub struct RuleError {
    pub message: String,
    pub causes: Vec<String>,
}

/// One match of a rule in a piece of source code.
#[derive(Debug, Clone)]
pub struct RuleMatch {
    /// Byte range of the matched node.
    pub start: usize,
    pub end: usize,
    /// Zero-based line and (character) column of the node's start.
    pub line: usize,
    pub column: usize,
    /// The matched node's text.
    pub text: String,
    /// The edit of each of the rule's fixers (its `fix:`), in order:
    /// `(position, deleted_length, inserted_text)`, i.e. replace the
    /// `deleted_length` bytes at byte offset `position` by `inserted_text`.
    pub edits: Vec<(usize, usize, Vec<u8>)>,
}

/// The edit of a match's first fixer, if its rule has one: the fix that
/// norma suggests and applies.
pub open spec fn first_edit(m: RuleMatch) -> Option<(usize, usize, Vec<u8>)> {
    if m.edits@.len() > 0 {
        Some(m.edits@[0])
    } else {
        None
    }
}

/// The edit of a match's first fixer (see `first_edit`).
pub fn first_edit_of(m: &RuleMatch) -> (r: Option<&(usize, usize, Vec<u8>)>)
    ensures
        match r {
            Some(e) => first_edit(*m) == Some(*e),
            None => first_edit(*m) is None,
        },
{
    if m.edits.len() > 0 {
        Some(&m.edits[0])
    } else {
        None
    }
}

/// What `ast_grep_config::from_yaml_string` makes of a (possibly
/// multi-document) rule YAML: one header per document, in document order,
/// or the error that stopped it.
pub uninterp spec fn ast_grep_rule_documents(yaml: Seq<char>) -> Result<Seq<RawRule>, RuleError>;

/// Every match ast-grep finds in `source` for the first rule document of
/// `yaml`, in the order `find_all` yields them (empty when `yaml` does not
/// parse to at least one document).
pub uninterp spec fn ast_grep_rule_matches(yaml: Seq<char>, source: Seq<char>) -> Seq<RuleMatch>;

/// Each ast-grep language, by its `Display` name (its variant's name),
/// with its aliases as `impl_aliases!` lists them, in the order of
/// `SupportLang::all_langs()`.
pub open spec fn ast_grep_language_aliases() -> Seq<(Seq<char>, Seq<Seq<char>>)> {
    seq![
        ("Bash"@, seq!["bash"@]),
        ("C"@, seq!["c"@]),
        ("Cpp"@, seq!["cc"@, "c++"@, "cpp"@, "cxx"@]),
        ("CSharp"@, seq!["cs"@, "csharp"@]),
        ("Css"@, seq!["css"@]),
        ("Dart"@, seq!["dart"@]),
        ("Elixir"@, seq!["ex"@, "elixir"@]),
        ("Go"@, seq!["go"@, "golang"@]),
        ("Haskell"@, seq!["hs"@, "haskell"@]),
        ("Hcl"@, seq!["hcl"@]),
        ("Html"@, seq!["html"@]),
        ("Java"@, seq!["java"@]),
        ("JavaScript"@, seq!["javascript"@, "js"@, "jsx"@]),
        ("Json"@, seq!["json"@]),
        ("Kotlin"@, seq!["kotlin"@, "kt"@]),
        ("Lua"@, seq!["lua"@]),
        ("Markdown"@, seq!["markdown"@, "md"@]),
        ("Nix"@, seq!["nix"@]),
        ("Php"@, seq!["php"@]),
        ("Python"@, seq!["py"@, "python"@]),
        ("Ruby"@, seq!["rb"@, "ruby"@]),
        ("Rust"@, seq!["rs"@, "rust"@]),
        ("Scala"@, seq!["scala"@]),
        ("Solidity"@, seq!["sol"@, "solidity"@]),
        ("Swift"@, seq!["swift"@]),
        ("Tsx"@, seq!["tsx"@]),
        ("TypeScript"@, seq!["ts"@, "typescript"@]),
        ("Yaml"@, seq!["yaml"@, "yml"@]),
    ]
}

/// The first language of `table` that has an alias equal to `alias`
/// ignoring ASCII case.
pub open spec fn first_with_alias(table: Seq<(Seq<char>, Seq<Seq<char>>)>, alias: Seq<char>) -> Option<Seq<char>>
    decreases table.len(),
{
    if table.len() == 0 {
        None
    } else if exists|k: int|
        0 <= k < table[0].1.len() && ascii_folded(#[trigger] table[0].1[k]) == ascii_folded(alias) {
        Some(table[0].0)
    } else {
        first_with_alias(table.drop_first(), alias)
    }
}

/// The name of the ast-grep language that `alias` parses to with
/// `SupportLang::from_str`, if any: the first language, in `all_langs`
/// order, with an alias equal to `alias` ignoring ASCII case.
pub open spec fn ast_grep_language_for_alias(alias: Seq<char>) -> Option<Seq<char>> {
    first_with_alias(ast_grep_language_aliases(), alias)
}

/// Two strings equal ignoring ASCII case name the same language.
pub proof fn alias_lookup_ignores_ascii_case(table: Seq<(Seq<char>, Seq<Seq<char>>)>, a: Seq<char>, b: Seq<char>)
    requires
        ascii_folded(a) == ascii_folded(b),
    ensures
        first_with_alias(table, a) == first_with_alias(table, b),
    decreases table.len(),
{
    if table.len() > 0 {
        alias_lookup_ignores_ascii_case(table.drop_first(), a, b);
    }
}

/// A language that an alias names is one of the table's languages.
pub proof fn alias_lookup_names_a_listed_language(table: Seq<(Seq<char>, Seq<Seq<char>>)>, alias: Seq<char>)
    ensures
        first_with_alias(table, alias) matches Some(n) ==> table.map_values(
            |e: (Seq<char>, Seq<Seq<char>>)| e.0,
        ).contains(n),
    decreases table.len(),
{
    let names = table.map_values(|e: (Seq<char>, Seq<Seq<char>>)| e.0);
    if table.len() > 0 {
        alias_lookup_names_a_listed_language(table.drop_first(), alias);
        assert(names[0] == table[0].0);
        if first_with_alias(table, alias) != Some(table[0].0) {
            if let Some(n) = first_with_alias(table, alias) {
                let rest = table.drop_first().map_values(|e: (Seq<char>, Seq<Seq<char>>)| e.0);
                let j = choose|j: int| 0 <= j < rest.len() && rest[j] == n;
                assert(names[j + 1] == rest[j]);
            }
        }
    }
}

/// The view of a parse outcome.
pub open spec fn documents_view(r: Result<Vec<RawRule>, RuleError>) -> Result<Seq<RawRule>, RuleError> {
    match r {
        Ok(v) => Ok(v@),
        Err(e) => Err(e),
    }
}

/// Calls `ast_grep_config::from_yaml_string` with default global rules and
/// reads each resulting `RuleConfig`'s `id`, `message`, `severity` (as
/// its variant's position), `language` (its `Display` name) and whether
/// its `fixer` list is non-empty; on failure, the error's message and its
/// `source()` chain. Claims only that the result is `ast_grep_rule_documents` of
/// the YAML text.
#[verifier::external_body]
pub(crate) fn rule_documents(yaml: &str) -> (r: Result<Vec<RawRule>, RuleError>)
    ensures
        documents_view(r) == ast_grep_rule_documents(yaml@),
{
    match from_yaml_string::<SupportLang>(yaml, &GlobalRules::default()) {
        Ok(configs) => Ok(configs.iter().map(|c| RawRule { id: c.id.clone(), message: c.message.clone(), severity_rank: c.severity.clone() as u8, language: c.language.to_string(), has_fix: !c.fixer.is_empty() }).collect()),
        Err(e) => Err(RuleError { message: e.to_string(), causes: std::iter::successors(e.source(), |c| (*c).source()).map(|c| c.to_string()).collect() }),
    }
}

/// Parses the first document of `yaml` with
/// `ast_grep_config::from_yaml_string`, runs its matcher over `source`
/// (`LanguageExt::ast_grep`, `Node::find_all`) and reads each match's
/// byte range, start line and character column, text, and the `Edit` of
/// `NodeMatch::make_edit` with each of the rule's fixers. Claims only that the
/// result is `ast_grep_rule_matches` of the two texts.
#[verifier::external_body]
pub(crate) fn rule_matches(yaml: &str, source: &str) -> (r: Vec<RuleMatch>)
    ensures
        r@ == ast_grep_rule_matches(yaml@, source@),
{
    let mut found = Vec::new();
    if let Some(c) = from_yaml_string::<SupportLang>(yaml, &GlobalRules::default()).unwrap_or_default().into_iter().next() {
        for m in c.language.ast_grep(source).root().find_all(&c.matcher) {
            let edits = c.fixer.iter().map(|f| m.make_edit(&c.matcher, f)).map(|e| (e.position, e.deleted_length, e.inserted_text)).collect();
            let (pos, r) = (m.start_pos(), m.range());
            found.push(RuleMatch { start: r.start, end: r.end, line: pos.line(), column: pos.column(&m), text: m.text().to_string(), edits });
        }
    }
    found
}

/// Calls `SupportLang::from_str` and returns the language's `Display`
/// name. Claims that the result is `ast_grep_language_for_alias` of
/// `alias` (`from_str` walks `all_langs` and, for each language, its
/// aliases, and returns the first language with an alias that
/// `eq_ignore_ascii_case` finds equal to `alias`), and that the lowercased
/// name (`str::to_lowercase`) parses back to the same language: every name
/// is ASCII, and its lowercase form is one of that language's aliases and
/// of no earlier language's.
#[verifier::external_body]
pub(crate) fn language_for_alias(alias: &str) -> (r: Option<String>)
    ensures
        crate::models::opt_view(r) == ast_grep_language_for_alias(alias@),
        r matches Some(n) ==> ast_grep_language_for_alias(crate::stdlib::std_lowercase(n@)) == Some(
            n@,
        ),
{
    match SupportLang::from_str(alias) {
        Ok(lang) => Some(lang.to_string()),
        Err(_) => None,
    }
}

/// The `Display` names of ast-grep's languages, in the order of
/// `SupportLang::all_langs()` (`Display` writes a language's variant name).
pub open spec fn ast_grep_language_names() -> Seq<Seq<char>> {
    ast_grep_language_aliases().map_values(|e: (Seq<char>, Seq<Seq<char>>)| e.0)
}

/// Collects the `Display` names of `SupportLang::all_langs()`, in that
/// order. Claims that they are `ast_grep_language_names()` (the source
/// lists the 28 variants in `all_langs` and its `Display` writes each
/// variant's name), and that each name lowercased with `str::to_lowercase`
/// parses back to it with `SupportLang::from_str` (each name is ASCII and
/// its lowercase form is one of its own aliases, and of no earlier
/// language's, in `impl_aliases!`).
#[verifier::external_body]
pub(crate) fn all_language_names() -> (r: Vec<String>)
    ensures
        crate::text::views(r@) == ast_grep_language_names(),
        forall|k: int|
            0 <= k < r@.len() ==> ast_grep_language_for_alias(
                crate::stdlib::std_lowercase((#[trigger] r@[k])@),
            ) == Some(r@[k]@),
{
    let mut names = Vec::new();
    for lang in SupportLang::all_langs() {
        names.push(lang.to_string());
    }
    names
}

} // verus!
