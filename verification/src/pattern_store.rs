//! The decisions of the pattern registry: what registering a rule stores,
//! how a multi-document YAML splits into rule documents, what a bulk
//! import registers or skips and reports, which default patterns seeding
//! adds, and how a stored row becomes a `Pattern` again. The SQLite store
//! that performs the reads and writes lives with the application.

use crate::ast_grep::RuleError;
use crate::default_patterns::DefaultPattern;
use crate::error::NormaError;
use crate::models::{opt_view, Pattern, Severity, Timestamp};
use crate::pattern_engine::spec_registration;
use crate::text::{contains_str, joined, owned, str_eq};
use crate::timestamps::{chrono_parse_rfc3339, chrono_rfc3339, parse_rfc3339, rfc3339_text};
use serde::Deserialize;
use serde_yaml::{Deserializer, Value};
use vstd::prelude::*;
use vstd::string::*;

verus! {

/// Why registering a pattern failed: a rule the caller got wrong, or a
/// storage failure.
#[derive(Debug)]
pub enum RegisterPatternError {
    InvalidRule(NormaError),
    Storage(String),
}

impl RegisterPatternError {
    /// The error's message (its `Display` form).
    pub fn message(&self) -> (r: String)
        ensures
            match self {
                RegisterPatternError::Storage(e) => r@ == "storage error: "@ + e@,
                RegisterPatternError::InvalidRule(e) => e.is_message_of(r@),
            },
    {
        match self {
            RegisterPatternError::InvalidRule(e) => e.message(),
            RegisterPatternError::Storage(e) => {
                let mut r = owned("storage error: ");
                r.append(e.as_str());
                r
            },
        }
    }
}

/// One document of a bulk import that could not be registered: its `id`
/// as read from the raw document (if it has one that is a string), and why.
#[derive(Debug, Clone, PartialEq)]
pub struct SkippedRule {
    pub id: Option<String>,
    pub reason: String,
}

/// The outcome of a bulk import: every registered pattern (one per
/// distinct id, the last document of an id winning) and every skipped
/// document with its reason.
#[derive(Debug, Clone, PartialEq)]
pub struct ImportResult {
    pub imported: Vec<Pattern>,
    pub skipped: Vec<SkippedRule>,
}

/// Whether the patterns of `v` have pairwise distinct ids.
pub open spec fn distinct_ids(v: Seq<Pattern>) -> bool {
    forall|i: int, j: int| 0 <= i < j < v.len() ==> (#[trigger] v[i]).spec_id() != (#[trigger] v[j]).spec_id()
}

impl ImportResult {
    /// Whether every attempted document registered (nothing was skipped).
    pub fn fully_succeeded(&self) -> (r: bool)
        ensures
            r == (self.skipped@.len() == 0),
    {
        self.skipped.len() == 0
    }

    /// Records a registered pattern: it replaces an earlier entry with the
    /// same id in place (the store upserts, so only one row is left for
    /// the id), or is appended.
    pub fn record_imported(&mut self, pattern: Pattern)
        requires
            distinct_ids(old(self).imported@),
        ensures
            distinct_ids(final(self).imported@),
            final(self).skipped == old(self).skipped,
            match first_with_id(old(self).imported@, pattern.spec_id()) {
                Some(j) => final(self).imported@ == old(self).imported@.update(j, pattern),
                None => final(self).imported@ == old(self).imported@.push(pattern),
            },
    {
        let mut j: usize = 0;
        while j < self.imported.len()
            invariant
                0 <= j <= self.imported@.len(),
                self.imported@ == old(self).imported@,
                distinct_ids(self.imported@),
                self.skipped == old(self).skipped,
                forall|k: int| 0 <= k < j ==> (#[trigger] self.imported@[k]).spec_id() != pattern.spec_id(),
            decreases self.imported@.len() - j,
        {
            if str_eq(self.imported[j].id(), pattern.id()) {
                proof {
                    first_with_id_is(self.imported@, pattern.spec_id(), j as int);
                }
                let ghost before = self.imported@;
                self.imported.set(j, pattern);
                assert forall|a: int, b: int| 0 <= a < b < self.imported@.len() implies (
                #[trigger] self.imported@[a]).spec_id() != (#[trigger] self.imported@[b]).spec_id() by {
                    if a != j && b != j {
                        assert(before[a] == self.imported@[a] && before[b] == self.imported@[b]);
                    } else if a == j {
                        assert(before[b] == self.imported@[b]);
                        assert(before[a].spec_id() == pattern.spec_id());
                        assert(before[a].spec_id() != before[b].spec_id());
                        assert(self.imported@[a] == pattern);
                    } else {
                        assert(before[a] == self.imported@[a]);
                        assert(before[b].spec_id() == pattern.spec_id());
                        assert(before[a].spec_id() != before[b].spec_id());
                        assert(self.imported@[b] == pattern);
                    }
                }
                return;
            }
            j = j + 1;
        }
        proof {
            first_with_id_none(self.imported@, pattern.spec_id());
        }
        let ghost before = self.imported@;
        self.imported.push(pattern);
        assert forall|a: int, b: int| 0 <= a < b < self.imported@.len() implies (
        #[trigger] self.imported@[a]).spec_id() != (#[trigger] self.imported@[b]).spec_id() by {
            if b < before.len() {
                assert(before[a] == self.imported@[a] && before[b] == self.imported@[b]);
            } else {
                assert(before[a] == self.imported@[a]);
            }
        }
    }
}

/// The position of the first pattern of `v` whose id is `id`, if any.
pub open spec fn first_with_id(v: Seq<Pattern>, id: Seq<char>) -> Option<int>
    decreases v.len(),
{
    if v.len() == 0 {
        None
    } else {
        match first_with_id(v.drop_last(), id) {
            Some(j) => Some(j),
            None => if v.last().spec_id() == id {
                Some(v.len() - 1)
            } else {
                None
            },
        }
    }
}

proof fn first_with_id_is(v: Seq<Pattern>, id: Seq<char>, j: int)
    requires
        0 <= j < v.len(),
        v[j].spec_id() == id,
        forall|k: int| 0 <= k < j ==> (#[trigger] v[k]).spec_id() != id,
    ensures
        first_with_id(v, id) == Some(j),
    decreases v.len(),
{
    if j < v.len() - 1 {
        first_with_id_is(v.drop_last(), id, j);
    } else {
        first_with_id_none(v.drop_last(), id);
    }
}

proof fn first_with_id_none(v: Seq<Pattern>, id: Seq<char>)
    requires
        forall|k: int| 0 <= k < v.len() ==> (#[trigger] v[k]).spec_id() != id,
    ensures
        first_with_id(v, id) is None,
    decreases v.len(),
{
    if v.len() > 0 {
        assert forall|k: int| 0 <= k < v.drop_last().len() implies (#[trigger] v.drop_last()[k]).spec_id() != id by {
            assert(v.drop_last()[k] == v[k]);
        }
        first_with_id_none(v.drop_last(), id);
        assert(v[v.len() - 1].spec_id() != id);
    }
}

// ---------------------------------------------------------------------
// Splitting a multi-document YAML
// ---------------------------------------------------------------------

/// What serde_yaml reports of one document of a multi-document YAML.
#[derive(Debug)]
pub struct RawYamlDocument {
    /// The document is empty (`null`).
    pub is_null: bool,
    /// The document has a top-level `id` / `rule` key.
    pub has_id: bool,
    pub has_rule: bool,
    /// The top-level `id` / `message` values, when they are strings.
    pub id: Option<String>,
    pub message: Option<String>,
    /// The document re-serialized on its own, or why that failed.
    pub text: Result<String, String>,
}

/// What `serde_yaml::Deserializer::from_str` and `Value::deserialize` make
/// of a multi-document YAML: one entry per document, in order, or the
/// message of the first error.
pub uninterp spec fn serde_yaml_documents(yaml: Seq<char>) -> Result<Seq<RawYamlDocument>, Seq<char>>;

/// The view of a split outcome.
pub open spec fn raw_documents_view(r: Result<Vec<RawYamlDocument>, String>) -> Result<Seq<RawYamlDocument>, Seq<char>> {
    match r {
        Ok(v) => Ok(v@),
        Err(e) => Err(e@),
    }
}

/// Iterates `serde_yaml::Deserializer::from_str(yaml)`, deserializes each
/// document into a `serde_yaml::Value` and reads `is_null`, whether `get`
/// finds `id` and `rule`, `as_str` of `id` and `message`, and
/// `serde_yaml::to_string` of the value; stops at the first error and
/// returns its message. Claims only that the result is
/// `serde_yaml_documents` of `yaml`.
#[verifier::external_body]
fn yaml_documents(yaml: &str) -> (r: Result<Vec<RawYamlDocument>, String>)
    ensures
        raw_documents_view(r) == serde_yaml_documents(yaml@),
{
    let mut docs = Vec::new();
    for doc in Deserializer::from_str(yaml) {
        let v = Value::deserialize(doc).map_err(|e| e.to_string())?;
        let text = serde_yaml::to_string(&v).map_err(|e| e.to_string());
        let s = |k: &str| v.get(k).and_then(Value::as_str).map(String::from);
        docs.push(RawYamlDocument { is_null: v.is_null(), has_id: v.get("id").is_some(), has_rule: v.get("rule").is_some(), id: s("id"), message: s("message"), text });
    }
    Ok(docs)
}

/// One rule document of a bulk import: its text on its own, and its raw
/// `id` and `message` (read from the YAML, not from a validated rule).
#[derive(Debug, Clone)]
pub struct YamlDocument {
    pub text: String,
    pub id: Option<String>,
    pub message: Option<String>,
}

/// Whether a document is carried into an import: it is not empty and has
/// an `id` or a `rule` (anything else is not a rule document at all).
pub open spec fn is_rule_document(d: RawYamlDocument) -> bool {
    !d.is_null && (d.has_id || d.has_rule)
}

/// The rule documents of a split, in order, or the first error (a
/// re-serialization error counts only for a document that is kept).
pub open spec fn spec_rule_documents(raws: Seq<RawYamlDocument>) -> Result<Seq<YamlDocument>, Seq<char>>
    decreases raws.len(),
{
    if raws.len() == 0 {
        Ok(Seq::empty())
    } else {
        match spec_rule_documents(raws.drop_last()) {
            Err(e) => Err(e),
            Ok(prev) => {
                let d = raws.last();
                if !is_rule_document(d) {
                    Ok(prev)
                } else {
                    match d.text {
                        Ok(t) => Ok(prev.push(YamlDocument { text: t, id: d.id, message: d.message })),
                        Err(e) => Err(e@),
                    }
                }
            },
        }
    }
}

/// What `split_yaml_documents` gives for a YAML text.
pub open spec fn spec_split(yaml: Seq<char>) -> Result<Seq<YamlDocument>, Seq<char>> {
    match serde_yaml_documents(yaml) {
        Ok(raws) => spec_rule_documents(raws),
        Err(e) => Err(e),
    }
}

proof fn rule_documents_error_stays(raws: Seq<RawYamlDocument>, n: int)
    requires
        0 <= n <= raws.len(),
        spec_rule_documents(raws.take(n)) is Err,
    ensures
        spec_rule_documents(raws) == spec_rule_documents(raws.take(n)),
    decreases raws.len() - n,
{
    if n < raws.len() {
        assert(raws.take(n + 1).drop_last() =~= raws.take(n));
        rule_documents_error_stays(raws, n + 1);
    } else {
        assert(raws.take(n) =~= raws);
    }
}

/// The rule document that a raw document gives when it is kept.
pub open spec fn document_of(d: RawYamlDocument) -> YamlDocument {
    YamlDocument { text: d.text->Ok_0, id: d.id, message: d.message }
}

proof fn rule_documents_account_for_every_document(raws: Seq<RawYamlDocument>)
    ensures
        spec_rule_documents(raws) matches Ok(docs) ==> {
            &&& forall|i: int|
                0 <= i < raws.len() && !(#[trigger] raws[i]).is_null && (raws[i].has_id || raws[i].has_rule)
                    ==> raws[i].text is Ok && docs.contains(document_of(raws[i]))
            &&& forall|k: int|
                #![trigger docs[k]]
                0 <= k < docs.len() ==> exists|i: int|
                    0 <= i < raws.len() && !(#[trigger] raws[i]).is_null && (raws[i].has_id || raws[i].has_rule)
                        && raws[i].text is Ok && docs[k] == document_of(raws[i])
        },
    decreases raws.len(),
{
    if raws.len() > 0 {
        let q = raws.drop_last();
        let d = raws.last();
        let n = raws.len() - 1;
        rule_documents_account_for_every_document(q);
        assert(raws[n] == d);
        assert forall|i: int| 0 <= i < n implies #[trigger] raws[i] == q[i] by {}
        if let Ok(docs) = spec_rule_documents(raws) {
            let prev = spec_rule_documents(q)->Ok_0;
            assert(spec_rule_documents(q) is Ok);
            assert forall|i: int|
                0 <= i < raws.len() && !(#[trigger] raws[i]).is_null && (raws[i].has_id || raws[i].has_rule)
                    implies raws[i].text is Ok && docs.contains(document_of(raws[i])) by {
                if i == n {
                    assert(docs == prev.push(document_of(d)));
                    assert(docs[prev.len() as int] == document_of(d));
                } else {
                    assert(raws[i] == q[i]);
                    let w = choose|w: int| 0 <= w < prev.len() && prev[w] == document_of(q[i]);
                    assert(docs[w] == prev[w]);
                }
            }
            assert forall|k: int| #![trigger docs[k]] 0 <= k < docs.len() implies exists|i: int|
                0 <= i < raws.len() && !(#[trigger] raws[i]).is_null && (raws[i].has_id || raws[i].has_rule)
                    && raws[i].text is Ok && docs[k] == document_of(raws[i]) by {
                if k < prev.len() {
                    assert(docs[k] == prev[k]);
                    let i = choose|i: int|
                        0 <= i < q.len() && !(#[trigger] q[i]).is_null && (q[i].has_id || q[i].has_rule)
                            && q[i].text is Ok && prev[k] == document_of(q[i]);
                    assert(raws[i] == q[i]);
                } else {
                    assert(docs[k] == document_of(raws[n]));
                }
            }
        }
    }
}

/// No rule document is dropped on the way into an import: when a YAML
/// splits, every document that is not empty and has a top-level `id` or
/// a top-level `rule` key is among the split documents, with its own text,
/// `id` and `message`; and every split document is such a document. Only
/// empty documents and documents with neither key are left out.
pub proof fn split_keeps_every_rule_document(yaml: Seq<char>)
    ensures
        serde_yaml_documents(yaml) matches Ok(raws) ==> (spec_split(yaml) matches Ok(docs) ==> {
            &&& forall|i: int|
                0 <= i < raws.len() && !(#[trigger] raws[i]).is_null && (raws[i].has_id || raws[i].has_rule)
                    ==> docs.contains(document_of(raws[i]))
            &&& forall|k: int|
                #![trigger docs[k]]
                0 <= k < docs.len() ==> exists|i: int|
                    0 <= i < raws.len() && !(#[trigger] raws[i]).is_null && (raws[i].has_id || raws[i].has_rule)
                        && docs[k] == document_of(raws[i])
        }),
{
    if let Ok(raws) = serde_yaml_documents(yaml) {
        rule_documents_account_for_every_document(raws);
    }
}

/// Splits a multi-document YAML into its rule documents, each
/// re-serialized on its own so it can be registered like a single rule.
/// Empty documents (such as the one a stray `---` pair produces) and
/// documents with neither an `id` nor a `rule` key are left out. Fails
/// with serde_yaml's message on a YAML syntax error.
pub fn split_yaml_documents(yaml: &str) -> (r: Result<Vec<YamlDocument>, String>)
    ensures
        match spec_split(yaml@) {
            Ok(docs) => r matches Ok(v) && v@ == docs,
            Err(e) => r matches Err(m) && m@ == e,
        },
{
    let raws = yaml_documents(yaml)?;
    let mut docs: Vec<YamlDocument> = Vec::new();
    let mut i: usize = 0;
    while i < raws.len()
        invariant
            0 <= i <= raws@.len(),
            serde_yaml_documents(yaml@) == Ok::<Seq<RawYamlDocument>, Seq<char>>(raws@),
            spec_rule_documents(raws@.take(i as int)) == Ok::<Seq<YamlDocument>, Seq<char>>(docs@),
        decreases raws@.len() - i,
    {
        let d = &raws[i];
        assert(raws@.take(i as int + 1).drop_last() =~= raws@.take(i as int));
        assert(raws@.take(i as int + 1).last() == raws@[i as int]);
        if !d.is_null && (d.has_id || d.has_rule) {
            match &d.text {
                Ok(t) => {
                    docs.push(
                        YamlDocument {
                            text: t.clone(),
                            id: crate::text::clone_opt(&d.id),
                            message: crate::text::clone_opt(&d.message),
                        },
                    );
                },
                Err(e) => {
                    proof {
                        assert(spec_rule_documents(raws@.take(i as int + 1)) == Err::<
                            Seq<YamlDocument>,
                            Seq<char>,
                        >(e@));
                        rule_documents_error_stays(raws@, i as int + 1);
                    }
                    return Err(e.clone());
                },
            }
        }
        i = i + 1;
    }
    assert(raws@.take(raws@.len() as int) =~= raws@);
    Ok(docs)
}

/// The rule documents of a bulk import's YAML; YAML that does not even
/// split into documents is refused as an invalid rule, with the YAML
/// parser's message.
pub fn import_documents(yaml: &str) -> (r: Result<Vec<YamlDocument>, RegisterPatternError>)
    ensures
        match spec_split(yaml@) {
            Ok(docs) => r matches Ok(v) && v@ == docs,
            Err(e) => r matches Err(RegisterPatternError::InvalidRule(NormaError::InvalidYaml { message }))
                && message@ == e,
        },
{
    match split_yaml_documents(yaml) {
        Ok(v) => Ok(v),
        Err(message) => Err(RegisterPatternError::InvalidRule(NormaError::InvalidYaml { message })),
    }
}

// ---------------------------------------------------------------------
// Registering and importing
// ---------------------------------------------------------------------

/// `p` is what registering the rule YAML `yaml` (first document `h`,
/// language key `key`) with the given catalog fields stores: enabled,
/// created and updated at `now`.
pub open spec fn registered_as(
    p: Pattern,
    h: crate::pattern_engine::RuleHeader,
    key: Seq<char>,
    name: String,
    description: String,
    category: Option<String>,
    yaml: Seq<char>,
    now: Timestamp,
) -> bool {
    &&& p.spec_id() == h.id@
    &&& p.spec_language() == key
    &&& p.spec_severity() == h.severity
    &&& p.spec_rule() == yaml
    &&& p.spec_name() == name
    &&& p.spec_description() == description
    &&& p.spec_category() == category
    &&& p.spec_enabled()
    &&& p.spec_created_at() == now
    &&& p.spec_updated_at() == now
}

/// The pattern that registering a rule stores: the rule checked and its
/// `id`, `language` and `severity` derived by `Pattern::from_rule`,
/// enabled, created and updated at `now`. A rule that fails the checks is
/// refused as an invalid rule, before anything is stored.
pub fn registration(
    name: String,
    description: String,
    category: Option<String>,
    rule_yaml: String,
    now: Timestamp,
) -> (r: Result<Pattern, RegisterPatternError>)
    ensures
        match spec_registration(rule_yaml@) {
            Ok((h, key)) => r matches Ok(p) && registered_as(
                p,
                h,
                key,
                name,
                description,
                category,
                rule_yaml@,
                now,
            ),
            Err(e) => r matches Err(RegisterPatternError::InvalidRule(x)) && x == e,
        },
{
    let ghost yaml = rule_yaml@;
    match Pattern::from_rule(name, description, category, rule_yaml, true, now, now) {
        Ok(p) => Ok(p),
        Err(e) => Err(RegisterPatternError::InvalidRule(e)),
    }
}

/// What a bulk import does with one rule document.
#[derive(Debug)]
pub enum ImportStep {
    /// Register (upsert) this pattern.
    Register(Pattern),
    /// Skip the document, for this reason.
    Skip(SkippedRule),
}

/// The string of an optional string, or the empty string.
pub open spec fn or_empty(s: Option<String>) -> Seq<char> {
    match s {
        Some(v) => v@,
        None => Seq::empty(),
    }
}

fn unwrap_or_empty(s: Option<String>) -> (r: String)
    ensures
        r@ == or_empty(s),
{
    match s {
        Some(v) => v,
        None => String::new(),
    }
}

/// Decides the fate of one rule document of a bulk import: registered
/// under its raw `id` as name and its raw `message` as description, with
/// `category` applied, or skipped with its raw `id` and the refusal's
/// messages joined by `": "`.
pub fn import_document(doc: YamlDocument, category: Option<String>, now: Timestamp) -> (r: ImportStep)
    ensures
        match spec_registration(doc.text@) {
            Ok((h, key)) => r matches ImportStep::Register(p) && p.spec_id() == h.id@
                && p.spec_language() == key && p.spec_severity() == h.severity && p.spec_rule()
                == doc.text@ && p.spec_name()@ == or_empty(doc.id) && p.spec_description()@
                == or_empty(doc.message) && p.spec_category() == category && p.spec_enabled()
                && p.spec_created_at() == now && p.spec_updated_at() == now,
            Err(e) => r matches ImportStep::Skip(s) && s.id == doc.id && (!e.lists_languages()
                ==> s.reason@ == joined(seq![e.spec_message()] + e.spec_causes(), ": "@)) && (
            e.lists_languages() ==> e.is_message_of(s.reason@)),
        },
{
    let id = crate::text::clone_opt(&doc.id);
    let name = unwrap_or_empty(doc.id);
    let description = unwrap_or_empty(doc.message);
    match registration(name, description, category, doc.text, now) {
        Ok(p) => ImportStep::Register(p),
        Err(RegisterPatternError::InvalidRule(e)) => ImportStep::Skip(SkippedRule { id, reason: e.chain_text() }),
        Err(RegisterPatternError::Storage(reason)) => ImportStep::Skip(SkippedRule { id, reason }),
    }
}

impl ImportResult {
    /// An import with nothing registered or skipped yet.
    pub fn new() -> (r: ImportResult)
        ensures
            r.imported@.len() == 0,
            r.skipped@.len() == 0,
    {
        ImportResult { imported: Vec::new(), skipped: Vec::new() }
    }

    /// Records one step of a bulk import (see `record_imported`).
    pub fn record(&mut self, step: ImportStep)
        requires
            distinct_ids(old(self).imported@),
        ensures
            distinct_ids(final(self).imported@),
            match step {
                ImportStep::Register(p) => final(self).skipped == old(self).skipped && match first_with_id(
                    old(self).imported@,
                    p.spec_id(),
                ) {
                    Some(j) => final(self).imported@ == old(self).imported@.update(j, p),
                    None => final(self).imported@ == old(self).imported@.push(p),
                },
                ImportStep::Skip(s) => final(self).imported == old(self).imported
                    && final(self).skipped@ == old(self).skipped@.push(s),
            },
    {
        match step {
            ImportStep::Register(p) => self.record_imported(p),
            ImportStep::Skip(s) => self.skipped.push(s),
        }
    }
}

/// Whether `p` is what importing `doc` registers: the pattern derived
/// from the rule (see `import_document`), named by the raw `id`, described
/// by the raw `message`, with `category`, enabled, created and updated at
/// `now`.
pub open spec fn imported_from(p: Pattern, doc: YamlDocument, category: Option<String>, now: Timestamp) -> bool {
    match spec_registration(doc.text@) {
        Ok((h, key)) => p.spec_id() == h.id@ && p.spec_language() == key && p.spec_severity()
            == h.severity && p.spec_rule() == doc.text@ && p.spec_name()@ == or_empty(doc.id)
            && p.spec_description()@ == or_empty(doc.message) && p.spec_category() == category
            && p.spec_enabled() && p.spec_created_at() == now && p.spec_updated_at() == now,
        Err(_) => false,
    }
}

/// Whether importing `doc` registers a pattern with id `id`.
pub open spec fn registers_id(doc: YamlDocument, id: Seq<char>) -> bool {
    spec_registration(doc.text@) matches Ok((h, _)) && h.id@ == id
}

/// Whether `s` is how importing `doc` is skipped: the document does not
/// register, and `s` carries its raw `id` and the refusal's messages.
pub open spec fn skipped_as(s: SkippedRule, doc: YamlDocument) -> bool {
    match spec_registration(doc.text@) {
        Err(e) => s.id == doc.id && (!e.lists_languages() ==> s.reason@ == joined(
            seq![e.spec_message()] + e.spec_causes(),
            ": "@,
        )) && (e.lists_languages() ==> e.is_message_of(s.reason@)),
        Ok(_) => false,
    }
}

/// The documents that do not register, in order.
pub open spec fn failing(docs: Seq<YamlDocument>) -> Seq<YamlDocument> {
    docs.filter(|d: YamlDocument| spec_registration(d.text@) is Err)
}

/// What a bulk import of `docs` records, as far as it is decided by the
/// documents alone: every pattern has a distinct id and is what its last
/// registering document registers; the ids of the patterns, in order, are
/// the ids that the documents register, each once, in the order in which
/// it is first registered (see `registered_ids`); and the skips are the
/// failing documents, in order.
pub open spec fn is_import_of(
    r: ImportResult,
    docs: Seq<YamlDocument>,
    category: Option<String>,
    now: Timestamp,
) -> bool {
    &&& distinct_ids(r.imported@)
    &&& forall|a: int|
        0 <= a < r.imported@.len() ==> exists|d: int|
            0 <= d < docs.len() && imported_from(#[trigger] r.imported@[a], docs[d], category, now)
                && forall|d2: int| d < d2 < docs.len() ==> !registers_id(#[trigger] docs[d2], r.imported@[a].spec_id())
    &&& pattern_ids(r.imported@) == registered_ids(docs)
    &&& r.skipped@.len() == failing(docs).len()
    &&& forall|k: int| 0 <= k < r.skipped@.len() ==> skipped_as(#[trigger] r.skipped@[k], failing(docs)[k])
}

/// The ids of `patterns`, in order.
pub open spec fn pattern_ids(patterns: Seq<Pattern>) -> Seq<Seq<char>> {
    patterns.map_values(|p: Pattern| p.spec_id())
}

/// The ids that `docs` register, each once, in the order of the first
/// document that registers it.
pub open spec fn registered_ids(docs: Seq<YamlDocument>) -> Seq<Seq<char>>
    decreases docs.len(),
{
    if docs.len() == 0 {
        Seq::empty()
    } else {
        let earlier = registered_ids(docs.drop_last());
        match spec_registration(docs.last().text@) {
            Ok((h, _)) => if earlier.contains(h.id@) {
                earlier
            } else {
                earlier.push(h.id@)
            },
            Err(_) => earlier,
        }
    }
}

proof fn registered_ids_include_every_registering_document(docs: Seq<YamlDocument>)
    ensures
        forall|d: int|
            0 <= d < docs.len() && #[trigger] spec_registration(docs[d].text@) is Ok ==> registered_ids(
                docs,
            ).contains(spec_registration(docs[d].text@)->Ok_0.0.id@),
    decreases docs.len(),
{
    if docs.len() > 0 {
        let q = docs.drop_last();
        registered_ids_include_every_registering_document(q);
        let prev = registered_ids(q);
        let all = registered_ids(docs);
        assert forall|d: int|
            0 <= d < docs.len() && #[trigger] spec_registration(docs[d].text@) is Ok implies all.contains(
                spec_registration(docs[d].text@)->Ok_0.0.id@,
            ) by {
            let id = spec_registration(docs[d].text@)->Ok_0.0.id@;
            if d < q.len() {
                assert(docs[d] == q[d]);
                let w = choose|w: int| 0 <= w < prev.len() && prev[w] == id;
                assert(all[w] == prev[w]);
            } else {
                assert(docs[d] == docs.last());
                if !prev.contains(id) {
                    assert(all[prev.len() as int] == id);
                }
            }
        }
    }
}

proof fn failing_includes_every_failing_document(docs: Seq<YamlDocument>)
    ensures
        forall|d: int|
            0 <= d < docs.len() && #[trigger] spec_registration(docs[d].text@) is Err ==> failing(
                docs,
            ).contains(docs[d]),
    decreases docs.len(),
{
    reveal(Seq::filter);
    if docs.len() > 0 {
        let q = docs.drop_last();
        failing_includes_every_failing_document(q);
        assert forall|d: int|
            0 <= d < docs.len() && #[trigger] spec_registration(docs[d].text@) is Err implies failing(
                docs,
            ).contains(docs[d]) by {
            if d < q.len() {
                assert(docs[d] == q[d]);
                let w = choose|w: int| 0 <= w < failing(q).len() && failing(q)[w] == q[d];
                assert(failing(docs)[w] == failing(q)[w]);
            } else {
                assert(docs[d] == docs.last());
                assert(failing(docs)[failing(q).len() as int] == docs[d]);
            }
        }
    }
}

/// No rule document goes unaccounted for in a bulk import: each one either
/// registers, and its id is among the imported patterns, or does not, and
/// it is among the skipped ones, named by its raw `id` (with the split
/// law `split_keeps_every_rule_document`, every document with an `id` or
/// a `rule` key is one of them).
pub proof fn every_rule_document_is_imported_or_skipped(
    r: ImportResult,
    docs: Seq<YamlDocument>,
    category: Option<String>,
    now: Timestamp,
)
    requires
        is_import_of(r, docs, category, now),
    ensures
        forall|d: int|
            0 <= d < docs.len() ==> match #[trigger] spec_registration(docs[d].text@) {
                Ok((h, _)) => pattern_ids(r.imported@).contains(h.id@),
                Err(_) => exists|k: int|
                    0 <= k < r.skipped@.len() && skipped_as(#[trigger] r.skipped@[k], docs[d])
                        && r.skipped@[k].id == docs[d].id,
            },
{
    registered_ids_include_every_registering_document(docs);
    failing_includes_every_failing_document(docs);
    assert forall|d: int| 0 <= d < docs.len() implies match #[trigger] spec_registration(docs[d].text@) {
        Ok((h, _)) => pattern_ids(r.imported@).contains(h.id@),
        Err(_) => exists|k: int|
            0 <= k < r.skipped@.len() && skipped_as(#[trigger] r.skipped@[k], docs[d])
                && r.skipped@[k].id == docs[d].id,
    } by {
        if spec_registration(docs[d].text@) is Err {
            let k = choose|k: int| 0 <= k < failing(docs).len() && failing(docs)[k] == docs[d];
            assert(skipped_as(r.skipped@[k], failing(docs)[k]));
        }
    }
}

proof fn first_with_id_facts(v: Seq<Pattern>, id: Seq<char>)
    ensures
        first_with_id(v, id) matches Some(j) ==> 0 <= j < v.len() && v[j].spec_id() == id,
        first_with_id(v, id) is None ==> forall|k: int| 0 <= k < v.len() ==> (#[trigger] v[k]).spec_id() != id,
    decreases v.len(),
{
    if v.len() > 0 {
        first_with_id_facts(v.drop_last(), id);
        assert forall|k: int| 0 <= k < v.drop_last().len() implies v.drop_last()[k] == v[k] by {}
    }
}

proof fn import_step_keeps(
    before: ImportResult,
    after: ImportResult,
    step: ImportStep,
    docs: Seq<YamlDocument>,
    i: int,
    category: Option<String>,
    now: Timestamp,
)
    requires
        0 <= i < docs.len(),
        is_import_of(before, docs.take(i), category, now),
        match spec_registration(docs[i].text@) {
            Ok((h, key)) => step matches ImportStep::Register(p) && imported_from(p, docs[i], category, now),
            Err(_) => step matches ImportStep::Skip(s) && skipped_as(s, docs[i]),
        },
        match step {
            ImportStep::Register(p) => after.skipped == before.skipped && match first_with_id(
                before.imported@,
                p.spec_id(),
            ) {
                Some(j) => after.imported@ == before.imported@.update(j, p),
                None => after.imported@ == before.imported@.push(p),
            },
            ImportStep::Skip(s) => after.imported == before.imported
                && after.skipped@ == before.skipped@.push(s),
        },
        distinct_ids(after.imported@),
    ensures
        is_import_of(after, docs.take(i + 1), category, now),
{
    let pre = docs.take(i);
    let all = docs.take(i + 1);
    let doc = docs[i];
    assert(all.drop_last() =~= pre);
    assert(all.last() == doc);
    assert forall|d: int| 0 <= d < i implies #[trigger] all[d] == pre[d] by {}
    reveal(Seq::filter);
    let ids = pattern_ids(before.imported@);
    assert(registered_ids(all) == match spec_registration(doc.text@) {
        Ok((h, _)) => if registered_ids(pre).contains(h.id@) {
            registered_ids(pre)
        } else {
            registered_ids(pre).push(h.id@)
        },
        Err(_) => registered_ids(pre),
    });
    match step {
        ImportStep::Register(p) => {
            assert(failing(all) == failing(pre));
            first_with_id_facts(before.imported@, p.spec_id());
            let x = p.spec_id();
            assert(registers_id(doc, x));
            assert forall|a: int| 0 <= a < after.imported@.len() implies exists|d: int|
                0 <= d < all.len() && imported_from(#[trigger] after.imported@[a], all[d], category, now)
                    && forall|d2: int| d < d2 < all.len() ==> !registers_id(#[trigger] all[d2], after.imported@[a].spec_id()) by {
                if after.imported@[a] == p && (a == before.imported@.len() || first_with_id(before.imported@, x) == Some(a)) {
                    assert(imported_from(after.imported@[a], all[i], category, now));
                } else {
                    assert(a < before.imported@.len());
                    assert(after.imported@[a] == before.imported@[a]);
                    let q = before.imported@[a];
                    assert(q.spec_id() != x);
                    let d = choose|d: int|
                        0 <= d < pre.len() && imported_from(#[trigger] before.imported@[a], pre[d], category, now)
                            && forall|d2: int| d < d2 < pre.len() ==> !registers_id(#[trigger] pre[d2], before.imported@[a].spec_id());
                    assert forall|d2: int| d < d2 < all.len() implies !registers_id(#[trigger] all[d2], q.spec_id()) by {
                        if d2 < i {
                            assert(all[d2] == pre[d2]);
                        } else {
                            assert(all[d2] == doc);
                            if registers_id(doc, q.spec_id()) {
                                assert(q.spec_id() == x);
                            }
                        }
                    }
                    assert(all[d] == pre[d]);
                }
            }
            match first_with_id(before.imported@, x) {
                Some(j) => {
                    assert(ids[j] == x);
                    assert(pattern_ids(after.imported@) =~= ids);
                },
                None => {
                    assert(!ids.contains(x)) by {
                        if ids.contains(x) {
                            let k = choose|k: int| 0 <= k < ids.len() && ids[k] == x;
                            assert(before.imported@[k].spec_id() == x);
                        }
                    }
                    assert(pattern_ids(after.imported@) =~= ids.push(x));
                },
            }
        },
        ImportStep::Skip(sk) => {
            assert(failing(all) == failing(pre).push(doc));
            assert forall|a: int| 0 <= a < after.imported@.len() implies exists|d: int|
                0 <= d < all.len() && imported_from(#[trigger] after.imported@[a], all[d], category, now)
                    && forall|d2: int| d < d2 < all.len() ==> !registers_id(#[trigger] all[d2], after.imported@[a].spec_id()) by {
                let q = before.imported@[a];
                let d = choose|d: int|
                    0 <= d < pre.len() && imported_from(#[trigger] before.imported@[a], pre[d], category, now)
                        && forall|d2: int| d < d2 < pre.len() ==> !registers_id(#[trigger] pre[d2], before.imported@[a].spec_id());
                assert forall|d2: int| d < d2 < all.len() implies !registers_id(#[trigger] all[d2], q.spec_id()) by {
                    if d2 < i {
                        assert(all[d2] == pre[d2]);
                    } else {
                        assert(all[d2] == doc);
                    }
                }
                assert(all[d] == pre[d]);
            }
            assert forall|k: int| 0 <= k < after.skipped@.len() implies skipped_as(#[trigger] after.skipped@[k], failing(all)[k]) by {
                if k < before.skipped@.len() {
                    assert(after.skipped@[k] == before.skipped@[k]);
                    assert(failing(all)[k] == failing(pre)[k]);
                }
            }
        },
    }
}

/// What a bulk import of a multi-document YAML records, before anything is
/// stored: YAML that does not split into documents is refused as an
/// invalid rule; otherwise every rule document is registered or skipped
/// (see `import_document`) and recorded, so that one pattern is kept per
/// id, with the last registering document's content, in the order in
/// which the ids first appear, and every failing document is skipped, in
/// order. Storing each kept pattern gives exactly the rows the import
/// writes.
pub fn import_plan(yaml: &str, category: Option<String>, now: Timestamp) -> (r: Result<
    ImportResult,
    RegisterPatternError,
>)
    ensures
        match spec_split(yaml@) {
            Ok(docs) => r matches Ok(res) && is_import_of(res, docs, category, now),
            Err(e) => r matches Err(RegisterPatternError::InvalidRule(NormaError::InvalidYaml { message }))
                && message@ == e,
        },
{
    let docs = import_documents(yaml)?;
    let ghost all = docs@;
    let mut rest = docs;
    let mut result = ImportResult::new();
    let n = rest.len();
    let mut i: usize = 0;
    proof {
        reveal(Seq::filter);
        assert(all.take(0) =~= Seq::<YamlDocument>::empty());
        assert(pattern_ids(result.imported@) =~= registered_ids(all.take(0)));
    }
    while i < n
        invariant
            n == all.len(),
            0 <= i <= n,
            rest@ == all.skip(i as int),
            is_import_of(result, all.take(i as int), category, now),
        decreases n - i,
    {
        let doc = rest.remove(0);
        assert(doc == all[i as int]);
        assert(rest@ =~= all.skip(i as int + 1));
        let step = import_document(doc, crate::text::clone_opt(&category), now);
        let ghost before = result;
        result.record(step);
        proof {
            import_step_keeps(before, result, step, all, i as int, category, now);
            assert(all.take(i as int + 1) =~= all.take(i as int + 1));
        }
        i = i + 1;
    }
    assert(all.take(n as int) =~= all);
    Ok(result)
}

// ---------------------------------------------------------------------
// Seeding and reading back
// ---------------------------------------------------------------------

/// The pattern seeding adds for one default pattern, unless a row with its
/// id already exists: an existing row is never touched, even if the
/// shipped rule changed since.
pub fn seed_candidate(def: &DefaultPattern, existing_ids: &Vec<String>, now: Timestamp) -> (r: Result<
    Option<Pattern>,
    NormaError,
>)
    ensures
        match spec_registration(def.rule@) {
            Err(e) => r == Err::<Option<Pattern>, NormaError>(e),
            Ok((h, key)) => if exists|k: int| 0 <= k < existing_ids@.len() && (#[trigger] existing_ids@[k])@ == h.id@ {
                r == Ok::<Option<Pattern>, NormaError>(None)
            } else {
                r matches Ok(Some(p)) && p.spec_name()@ == def.name@ && p.spec_description()@ == def.description@
                    && opt_view(p.spec_category()) == Some(def.category@) && p.spec_id() == h.id@
                    && p.spec_language() == key && p.spec_severity() == h.severity
                    && p.spec_rule() == def.rule@ && p.spec_enabled() && p.spec_created_at() == now
                    && p.spec_updated_at() == now
            },
        },
{
    let p = Pattern::from_rule(
        owned(def.name),
        owned(def.description),
        Some(owned(def.category)),
        owned(def.rule),
        true,
        now,
        now,
    )?;
    if contains_str(existing_ids, p.id()) {
        Ok(None)
    } else {
        Ok(Some(p))
    }
}

/// A pattern as one row of the pattern database: its severity by its
/// string form and its timestamps as RFC 3339 text.
#[derive(Debug, Clone, PartialEq)]
pub struct PatternRow {
    pub id: String,
    pub name: String,
    pub description: String,
    pub category: Option<String>,
    pub language: String,
    pub severity: String,
    pub rule: String,
    pub enabled: bool,
    pub created_at: String,
    pub updated_at: String,
}

/// The row that storing a pattern writes; `None` when one of its
/// timestamps has no RFC 3339 text (chrono cannot represent it).
pub fn pattern_row(p: &Pattern) -> (r: Option<PatternRow>)
    ensures
        match (
            chrono_rfc3339(p.spec_created_at().unix_seconds, p.spec_created_at().nanoseconds),
            chrono_rfc3339(p.spec_updated_at().unix_seconds, p.spec_updated_at().nanoseconds),
        ) {
            (Some(c), Some(u)) => r matches Some(row) && row.id@ == p.spec_id() && row.name
                == p.spec_name() && row.description == p.spec_description() && row.category
                == p.spec_category() && row.language@ == p.spec_language() && row.severity@
                == p.spec_severity().spec_as_str() && row.rule@ == p.spec_rule() && row.enabled
                == p.spec_enabled() && row.created_at@ == c && row.updated_at@ == u,
            _ => r is None,
        },
{
    proof {
        crate::models::pattern_accessors(*p);
    }
    let created_at = rfc3339_text(p.created_at)?;
    let updated_at = rfc3339_text(p.updated_at)?;
    Some(
        PatternRow {
            id: owned(p.id()),
            name: p.name.clone(),
            description: p.description.clone(),
            category: crate::text::clone_opt(&p.category),
            language: owned(p.language()),
            severity: owned(p.severity().as_str()),
            rule: owned(p.rule()),
            enabled: p.enabled,
            created_at,
            updated_at,
        },
    )
}

/// Rebuilds a `Pattern` from a stored row without re-parsing its rule (see
/// `Pattern::from_trusted_row`). Fails on a severity string `Severity::parse`
/// does not know, then on the first timestamp that does not parse as
/// RFC 3339.
pub fn row_to_pattern(
    id: String,
    name: String,
    description: String,
    category: Option<String>,
    language: String,
    severity: &str,
    rule: String,
    enabled: bool,
    created_at: &str,
    updated_at: &str,
) -> (r: Result<Pattern, String>)
    ensures
        match (
            Severity::spec_parse(severity@),
            chrono_parse_rfc3339(created_at@),
            chrono_parse_rfc3339(updated_at@),
        ) {
            (None, _, _) => r matches Err(m) && m@ == "unknown severity in database: "@ + severity@,
            (Some(_), Err(e), _) => r matches Err(m) && m@ == e,
            (Some(_), Ok(_), Err(e)) => r matches Err(m) && m@ == e,
            (Some(sev), Ok(c), Ok(u)) => r matches Ok(p) && p.spec_id() == id@ && p.spec_name()
                == name && p.spec_description() == description && p.spec_category() == category
                && p.spec_language() == language@ && p.spec_severity() == sev && p.spec_rule()
                == rule@ && p.spec_enabled() == enabled && p.spec_created_at() == (Timestamp {
                unix_seconds: c.0,
                nanoseconds: c.1,
            }) && p.spec_updated_at() == (Timestamp { unix_seconds: u.0, nanoseconds: u.1 }),
        },
{
    let sev = match Severity::parse(severity) {
        Some(s) => s,
        None => {
            let mut m = owned("unknown severity in database: ");
            m.append(severity);
            return Err(m);
        },
    };
    let created = parse_rfc3339(created_at)?;
    let updated = parse_rfc3339(updated_at)?;
    Ok(
        Pattern::from_trusted_row(
            id,
            name,
            description,
            category,
            language,
            sev,
            rule,
            enabled,
            created,
            updated,
        ),
    )
}

} // verus!
