//! The command line: the grammar of `norma`'s arguments, the reports that
//! `validate`, `validate --fix` and `import` print, and where the pattern
//! database lives.

use crate::models::{
    conflict_views, pair_views, violation_views, ConflictView, FixConflict, FixResult,
    ValidationResult, ViolationView,
};
use crate::pattern_engine::{blocking_count, count_blocking};
use crate::pattern_store::{ImportResult, RegisterPatternError, SkippedRule};
use crate::stdlib::{debug_quoted, std_debug_str};
use crate::text::{
    concat_map, concat_map_take_one_more, decimal, join, joined, owned, str_eq, u128_decimal,
    usize_decimal,
};
use vstd::prelude::*;
use vstd::string::*;

verus! {

// ---------------------------------------------------------------------
// The parsed command line
// ---------------------------------------------------------------------

/// A subcommand of `norma` with its arguments.
#[derive(Debug, Clone, PartialEq)]
pub enum Command {
    /// Run the MCP tool server on stdio.
    Serve,
    /// Validate one or more files against the patterns registered for
    /// their language (`--language`), printing JSON with `--json` and
    /// rewriting each file with every non-conflicting fix with `--fix`.
    Validate { language: String, json: bool, fix: bool, files: Vec<String> },
    /// List every registered pattern.
    ListPatterns,
    /// Bulk-import every `.yml`/`.yaml` rule file under a directory, with
    /// an optional category for every imported pattern.
    Import { dir: String, category: Option<String>, json: bool },
}

/// `norma`'s command line: the global `--db` path and the subcommand.
#[derive(Debug, Clone, PartialEq)]
pub struct Cli {
    pub db: Option<String>,
    pub command: Command,
}

/// The mathematical content of a `Command`.
pub enum CommandView {
    Serve,
    Validate { language: Seq<char>, json: bool, fix: bool, files: Seq<Seq<char>> },
    ListPatterns,
    Import { dir: Seq<char>, category: Option<Seq<char>>, json: bool },
}

/// The mathematical content of a `Cli`.
pub struct CliView {
    pub db: Option<Seq<char>>,
    pub command: CommandView,
}

impl View for Command {
    type V = CommandView;

    open spec fn view(&self) -> CommandView {
        match self {
            Command::Serve => CommandView::Serve,
            Command::Validate { language, json, fix, files } => CommandView::Validate {
                language: language@,
                json: *json,
                fix: *fix,
                files: crate::text::views(files@),
            },
            Command::ListPatterns => CommandView::ListPatterns,
            Command::Import { dir, category, json } => CommandView::Import {
                dir: dir@,
                category: crate::models::opt_view(*category),
                json: *json,
            },
        }
    }
}

impl View for Cli {
    type V = CliView;

    open spec fn view(&self) -> CliView {
        CliView { db: crate::models::opt_view(self.db), command: self.command@ }
    }
}

/// Why a command line was not accepted. `Help` and `Version` are requests
/// for the help or version text rather than mistakes.
#[derive(Debug, Clone, Copy, PartialEq, Eq, Structural)]
pub enum CliErrorKind {
    Help,
    Version,
    MissingSubcommand,
    UnknownSubcommand,
    UnexpectedArgument,
    UnexpectedValue,
    MissingValue,
    EmptyValue,
    RepeatedArgument,
    MissingRequired,
}

/// A refused command line: the kind of refusal and the argument it is
/// about (the offending token, or the name of what is missing).
#[derive(Debug, Clone, PartialEq)]
pub struct CliError {
    pub kind: CliErrorKind,
    pub argument: String,
}

impl View for CliError {
    type V = (CliErrorKind, Seq<char>);

    open spec fn view(&self) -> (CliErrorKind, Seq<char>) {
        (self.kind, self.argument@)
    }
}

impl CliError {
    /// The one-line message of a refusal (after `error: `).
    pub open spec fn spec_message(self) -> Seq<char> {
        let a = self.argument@;
        match self.kind {
            CliErrorKind::Help => "help requested"@,
            CliErrorKind::Version => "version requested"@,
            CliErrorKind::MissingSubcommand => "a subcommand is required"@,
            CliErrorKind::UnknownSubcommand => "unrecognized subcommand '"@ + a + "'"@,
            CliErrorKind::UnexpectedArgument => "unexpected argument '"@ + a + "' found"@,
            CliErrorKind::UnexpectedValue => "unexpected value in '"@ + a
                + "'; no value was expected"@,
            CliErrorKind::MissingValue => "a value is required for '"@ + a
                + "' but none was supplied"@,
            CliErrorKind::EmptyValue => "a non-empty value is required for '"@ + a + "'"@,
            CliErrorKind::RepeatedArgument => "the argument '"@ + a
                + "' cannot be used multiple times"@,
            CliErrorKind::MissingRequired => "the following required argument was not provided: "@
                + a,
        }
    }

    /// The one-line message of a refusal (after `error: `).
    pub fn message(&self) -> (r: String)
        ensures
            r@ == self.spec_message(),
    {
        let a = self.argument.as_str();
        let (head, tail): (&str, &str) = match self.kind {
            CliErrorKind::Help => return owned("help requested"),
            CliErrorKind::Version => return owned("version requested"),
            CliErrorKind::MissingSubcommand => return owned("a subcommand is required"),
            CliErrorKind::UnknownSubcommand => ("unrecognized subcommand '", "'"),
            CliErrorKind::UnexpectedArgument => ("unexpected argument '", "' found"),
            CliErrorKind::UnexpectedValue => ("unexpected value in '", "'; no value was expected"),
            CliErrorKind::MissingValue => ("a value is required for '", "' but none was supplied"),
            CliErrorKind::EmptyValue => ("a non-empty value is required for '", "'"),
            CliErrorKind::RepeatedArgument => ("the argument '", "' cannot be used multiple times"),
            CliErrorKind::MissingRequired => {
                let mut r = owned("the following required argument was not provided: ");
                r.append(a);
                return r;
            },
        };
        let mut r = owned(head);
        r.append(a);
        r.append(tail);
        r
    }
}

// ---------------------------------------------------------------------
// The grammar
// ---------------------------------------------------------------------

/// The subcommands, without their arguments.
#[derive(Debug, Clone, Copy, PartialEq, Eq, Structural)]
pub enum SubcommandKind {
    Serve,
    Validate,
    ListPatterns,
    Import,
}

/// The options that take a value.
#[derive(Debug, Clone, Copy, PartialEq, Eq, Structural)]
pub enum ValueOption {
    Db,
    Language,
    Category,
}

/// The long options `norma` knows, by name.
#[derive(Debug, Clone, Copy, PartialEq, Eq, Structural)]
pub enum LongName {
    Db,
    Help,
    Version,
    Language,
    Json,
    Fix,
    Category,
    Other,
}

/// How an argument reads: a value (no leading `-`, or `-` alone), the
/// separator `--`, a long option (`--name` or `--name=value`), or a short
/// option (`-x`).
#[derive(Debug, Clone, Copy, PartialEq, Eq, Structural)]
pub enum Shape {
    Value,
    Separator,
    Long,
    Short,
}

/// An option's value: argument `arg` from its character `from` on (after
/// the `=` of `--name=value`, or the whole argument).
#[derive(Debug, Clone, Copy, PartialEq, Eq, Structural)]
pub struct ArgSlice {
    pub arg: usize,
    pub from: usize,
}

/// What has been read of a command line so far. `--db` given before the
/// subcommand and `--db` given after it are kept apart: each may be given
/// once, and the later one is the path.
pub struct Scan {
    pub sub: Option<SubcommandKind>,
    pub positional_only: bool,
    pub pending: Option<ValueOption>,
    pub db_top: Option<ArgSlice>,
    pub db_sub: Option<ArgSlice>,
    pub language: Option<ArgSlice>,
    pub category: Option<ArgSlice>,
    pub json: bool,
    pub fix: bool,
    pub positionals: Vec<usize>,
}

/// The mathematical content of a `Scan`.
pub struct ScanView {
    pub sub: Option<SubcommandKind>,
    pub positional_only: bool,
    pub pending: Option<ValueOption>,
    pub db_top: Option<ArgSlice>,
    pub db_sub: Option<ArgSlice>,
    pub language: Option<ArgSlice>,
    pub category: Option<ArgSlice>,
    pub json: bool,
    pub fix: bool,
    pub positionals: Seq<usize>,
}

impl View for Scan {
    type V = ScanView;

    open spec fn view(&self) -> ScanView {
        ScanView {
            sub: self.sub,
            positional_only: self.positional_only,
            pending: self.pending,
            db_top: self.db_top,
            db_sub: self.db_sub,
            language: self.language,
            category: self.category,
            json: self.json,
            fix: self.fix,
            positionals: self.positionals@,
        }
    }
}

/// A refusal as the grammar states it.
pub type Refusal = (CliErrorKind, Seq<char>);

/// The views of the arguments.
pub open spec fn arg_views(args: Seq<&str>) -> Seq<Seq<char>> {
    args.map_values(|a: &str| a@)
}

/// The shape of an argument.
pub open spec fn shape(t: Seq<char>) -> Shape {
    if t.len() < 2 || t[0] != '-' {
        Shape::Value
    } else if t[1] == '-' {
        if t.len() == 2 {
            Shape::Separator
        } else {
            Shape::Long
        }
    } else {
        Shape::Short
    }
}

/// The position of the first `=` of `t` at or after `k`, or `t.len()`.
pub open spec fn eq_from(t: Seq<char>, k: int) -> int
    decreases t.len() - k,
{
    if k < 0 || k >= t.len() {
        t.len() as int
    } else if t[k] == '=' {
        k
    } else {
        eq_from(t, k + 1)
    }
}

/// Which long option `name` (the part after `--`, before any `=`) is.
pub open spec fn long_name(name: Seq<char>) -> LongName {
    if name == "db"@ {
        LongName::Db
    } else if name == "help"@ {
        LongName::Help
    } else if name == "version"@ {
        LongName::Version
    } else if name == "language"@ {
        LongName::Language
    } else if name == "json"@ {
        LongName::Json
    } else if name == "fix"@ {
        LongName::Fix
    } else if name == "category"@ {
        LongName::Category
    } else {
        LongName::Other
    }
}

/// Whether the long option `n` may be given at this point: `--db` and
/// `--help` anywhere, `--version` before the subcommand, and each
/// subcommand's own options after it.
pub open spec fn accepts(sub: Option<SubcommandKind>, n: LongName) -> bool {
    match n {
        LongName::Db => true,
        LongName::Help => true,
        LongName::Version => sub is None,
        LongName::Language => sub == Some(SubcommandKind::Validate),
        LongName::Fix => sub == Some(SubcommandKind::Validate),
        LongName::Json => sub == Some(SubcommandKind::Validate) || sub == Some(
            SubcommandKind::Import,
        ),
        LongName::Category => sub == Some(SubcommandKind::Import),
        LongName::Other => false,
    }
}

/// The subcommand an argument names, if any.
pub open spec fn subcommand_named(t: Seq<char>) -> Option<SubcommandKind> {
    if t == "serve"@ {
        Some(SubcommandKind::Serve)
    } else if t == "validate"@ {
        Some(SubcommandKind::Validate)
    } else if t == "list-patterns"@ {
        Some(SubcommandKind::ListPatterns)
    } else if t == "import"@ {
        Some(SubcommandKind::Import)
    } else {
        None
    }
}

/// How an option is named in a refusal.
pub open spec fn option_label(o: ValueOption) -> Seq<char> {
    match o {
        ValueOption::Db => "--db"@,
        ValueOption::Language => "--language"@,
        ValueOption::Category => "--category"@,
    }
}

/// Whether the option already has a value at this point (`--db` counts
/// separately before and after the subcommand).
pub open spec fn already_given(st: ScanView, o: ValueOption) -> bool {
    match o {
        ValueOption::Db => if st.sub is None {
            st.db_top is Some
        } else {
            st.db_sub is Some
        },
        ValueOption::Language => st.language is Some,
        ValueOption::Category => st.category is Some,
    }
}

/// The scan with option `o` given the value `v`.
pub open spec fn with_value(st: ScanView, o: ValueOption, v: ArgSlice) -> ScanView {
    match o {
        ValueOption::Db => if st.sub is None {
            ScanView { db_top: Some(v), pending: None, ..st }
        } else {
            ScanView { db_sub: Some(v), pending: None, ..st }
        },
        ValueOption::Language => ScanView { language: Some(v), pending: None, ..st },
        ValueOption::Category => ScanView { category: Some(v), pending: None, ..st },
    }
}

/// A positional argument `i` read after the subcommand: any number of
/// files for `validate`, one directory for `import`, none otherwise. A
/// file or directory may not be empty.
pub open spec fn positional(t: Seq<char>, i: int, st: ScanView) -> Result<ScanView, Refusal> {
    match st.sub {
        Some(SubcommandKind::Validate) => if t.len() == 0 {
            Err((CliErrorKind::EmptyValue, "FILE"@))
        } else {
            Ok(ScanView { positionals: st.positionals.push(i as usize), ..st })
        },
        Some(SubcommandKind::Import) => if st.positionals.len() != 0 {
            Err((CliErrorKind::UnexpectedArgument, t))
        } else if t.len() == 0 {
            Err((CliErrorKind::EmptyValue, "DIR"@))
        } else {
            Ok(ScanView { positionals: st.positionals.push(i as usize), ..st })
        },
        _ => Err((CliErrorKind::UnexpectedArgument, t)),
    }
}

/// Whether `text` is refused as the value of `o`: a path (`--db`) may
/// not be empty.
pub open spec fn empty_path(o: ValueOption, text: Seq<char>) -> bool {
    o == ValueOption::Db && text.len() == 0
}

/// A value option read as argument `i` of length `len`, whose first `=`
/// is at `e`: `--name=value` carries its value, `--name` takes the next
/// argument; given twice it is refused.
pub open spec fn value_option(
    o: ValueOption,
    i: int,
    e: int,
    len: int,
    st: ScanView,
) -> Result<ScanView, Refusal> {
    if already_given(st, o) {
        Err((CliErrorKind::RepeatedArgument, option_label(o)))
    } else if e < len {
        if o == ValueOption::Db && e + 1 == len {
            Err((CliErrorKind::EmptyValue, option_label(o)))
        } else {
            Ok(with_value(st, o, ArgSlice { arg: i as usize, from: (e + 1) as usize }))
        }
    } else {
        Ok(ScanView { pending: Some(o), ..st })
    }
}

/// A long option read as argument `i`.
pub open spec fn long_option(t: Seq<char>, i: int, st: ScanView) -> Result<ScanView, Refusal> {
    let e = eq_from(t, 2);
    let n = long_name(t.subrange(2, e));
    let has_value = e < t.len();
    if !accepts(st.sub, n) {
        Err((CliErrorKind::UnexpectedArgument, t))
    } else {
        match n {
            LongName::Help => if has_value {
                Err((CliErrorKind::UnexpectedValue, t))
            } else {
                Err((CliErrorKind::Help, t))
            },
            LongName::Version => if has_value {
                Err((CliErrorKind::UnexpectedValue, t))
            } else {
                Err((CliErrorKind::Version, t))
            },
            LongName::Json => if has_value {
                Err((CliErrorKind::UnexpectedValue, t))
            } else if st.json {
                Err((CliErrorKind::RepeatedArgument, "--json"@))
            } else {
                Ok(ScanView { json: true, ..st })
            },
            LongName::Fix => if has_value {
                Err((CliErrorKind::UnexpectedValue, t))
            } else if st.fix {
                Err((CliErrorKind::RepeatedArgument, "--fix"@))
            } else {
                Ok(ScanView { fix: true, ..st })
            },
            LongName::Db => value_option(ValueOption::Db, i, e, t.len() as int, st),
            LongName::Language => value_option(ValueOption::Language, i, e, t.len() as int, st),
            LongName::Category => value_option(ValueOption::Category, i, e, t.len() as int, st),
            LongName::Other => Err((CliErrorKind::UnexpectedArgument, t)),
        }
    }
}

/// Reads argument `i` (the program name, argument 0, is never read).
pub open spec fn step(args: Seq<Seq<char>>, i: int, st: ScanView) -> Result<ScanView, Refusal> {
    let t = args[i];
    match st.pending {
        Some(o) => if shape(t) == Shape::Value {
            if empty_path(o, t) {
                Err((CliErrorKind::EmptyValue, option_label(o)))
            } else {
                Ok(with_value(st, o, ArgSlice { arg: i as usize, from: 0 }))
            }
        } else {
            Err((CliErrorKind::MissingValue, option_label(o)))
        },
        None => if st.positional_only {
            positional(t, i, st)
        } else {
            match shape(t) {
                Shape::Separator => if st.sub is None {
                    Err((CliErrorKind::UnexpectedArgument, t))
                } else {
                    Ok(ScanView { positional_only: true, ..st })
                },
                Shape::Long => long_option(t, i, st),
                Shape::Short => if t == "-h"@ {
                    Err((CliErrorKind::Help, t))
                } else if t == "-V"@ && st.sub is None {
                    Err((CliErrorKind::Version, t))
                } else {
                    Err((CliErrorKind::UnexpectedArgument, t))
                },
                Shape::Value => if st.sub is None {
                    match subcommand_named(t) {
                        Some(k) => Ok(ScanView { sub: Some(k), ..st }),
                        None => if t == "help"@ {
                            Err((CliErrorKind::Help, t))
                        } else {
                            Err((CliErrorKind::UnknownSubcommand, t))
                        },
                    }
                } else {
                    positional(t, i, st)
                },
            }
        },
    }
}

/// Nothing read yet.
pub open spec fn initial_scan() -> ScanView {
    ScanView {
        sub: None,
        positional_only: false,
        pending: None,
        db_top: None,
        db_sub: None,
        language: None,
        category: None,
        json: false,
        fix: false,
        positionals: Seq::empty(),
    }
}

/// Reads arguments `1..n` in order; the first refusal ends the reading.
pub open spec fn scan(args: Seq<Seq<char>>, n: int) -> Result<ScanView, Refusal>
    decreases n,
{
    if n <= 1 {
        Ok(initial_scan())
    } else {
        match scan(args, n - 1) {
            Err(e) => Err(e),
            Ok(st) => step(args, n - 1, st),
        }
    }
}

/// The text of a value.
pub open spec fn slice_view(args: Seq<Seq<char>>, s: ArgSlice) -> Seq<char> {
    args[s.arg as int].skip(s.from as int)
}

/// The text of an optional value.
pub open spec fn opt_slice_view(args: Seq<Seq<char>>, s: Option<ArgSlice>) -> Option<Seq<char>> {
    match s {
        Some(v) => Some(slice_view(args, v)),
        None => None,
    }
}

/// The command line once every argument is read: a value still owed, a
/// missing subcommand or a missing required argument is refused.
pub open spec fn finish(args: Seq<Seq<char>>, st: ScanView) -> Result<CliView, Refusal> {
    let db = if st.db_sub is Some {
        opt_slice_view(args, st.db_sub)
    } else {
        opt_slice_view(args, st.db_top)
    };
    match st.pending {
        Some(o) => Err((CliErrorKind::MissingValue, option_label(o))),
        None => match st.sub {
            None => Err((CliErrorKind::MissingSubcommand, Seq::empty())),
            Some(SubcommandKind::Serve) => Ok(CliView { db, command: CommandView::Serve }),
            Some(SubcommandKind::ListPatterns) => Ok(
                CliView { db, command: CommandView::ListPatterns },
            ),
            Some(SubcommandKind::Validate) => match st.language {
                None => Err((CliErrorKind::MissingRequired, "--language"@)),
                Some(l) => if st.positionals.len() == 0 {
                    Err((CliErrorKind::MissingRequired, "FILE"@))
                } else {
                    Ok(
                        CliView {
                            db,
                            command: CommandView::Validate {
                                language: slice_view(args, l),
                                json: st.json,
                                fix: st.fix,
                                files: st.positionals.map_values(|p: usize| args[p as int]),
                            },
                        },
                    )
                },
            },
            Some(SubcommandKind::Import) => if st.positionals.len() == 0 {
                Err((CliErrorKind::MissingRequired, "DIR"@))
            } else {
                Ok(
                    CliView {
                        db,
                        command: CommandView::Import {
                            dir: args[st.positionals[0] as int],
                            category: opt_slice_view(args, st.category),
                            json: st.json,
                        },
                    },
                )
            },
        },
    }
}

/// What `norma` makes of its arguments (argument 0 is the program name).
pub open spec fn spec_parse(args: Seq<Seq<char>>) -> Result<CliView, Refusal> {
    match scan(args, args.len() as int) {
        Err(e) => Err(e),
        Ok(st) => finish(args, st),
    }
}

/// The view of a parse result.
pub open spec fn parse_view(r: Result<Cli, CliError>) -> Result<CliView, Refusal> {
    match r {
        Ok(c) => Ok(c@),
        Err(e) => Err(e@),
    }
}

/// The view of a step's result.
pub open spec fn scan_view(r: Result<Scan, CliError>) -> Result<ScanView, Refusal> {
    match r {
        Ok(st) => Ok(st@),
        Err(e) => Err(e@),
    }
}

/// Whether every value and positional of the scan lies within the first
/// `n` arguments.
pub open spec fn scan_within(args: Seq<Seq<char>>, st: ScanView, n: int) -> bool {
    &&& forall|k: int| 0 <= k < st.positionals.len() ==> 1 <= #[trigger] st.positionals[k] < n
    &&& slice_within(args, st.db_top, n)
    &&& slice_within(args, st.db_sub, n)
    &&& slice_within(args, st.language, n)
    &&& slice_within(args, st.category, n)
    &&& (st.positional_only ==> st.sub is Some)
}

/// Whether an optional value lies within the first `n` arguments.
pub open spec fn slice_within(args: Seq<Seq<char>>, s: Option<ArgSlice>, n: int) -> bool {
    match s {
        Some(v) => 1 <= v.arg < n && v.from <= args[v.arg as int].len(),
        None => true,
    }
}

proof fn eq_from_bounds(t: Seq<char>, k: int)
    requires
        0 <= k <= t.len(),
    ensures
        k <= eq_from(t, k) <= t.len(),
    decreases t.len() - k,
{
    if k < t.len() && t[k] != '=' {
        eq_from_bounds(t, k + 1);
    }
}

proof fn step_within(args: Seq<Seq<char>>, i: int, st: ScanView)
    requires
        1 <= i < args.len(),
        i < usize::MAX,
        scan_within(args, st, i),
    ensures
        step(args, i, st) matches Ok(s) ==> scan_within(args, s, i + 1),
{
    let t = args[i];
    let r = step(args, i, st);
    if r is Ok {
        let s = r->Ok_0;
        if st.pending is None && (st.positional_only || (shape(t) == Shape::Value && st.sub is Some)) {
            assert(s.positionals == st.positionals.push(i as usize));
        } else {
            if st.pending is None && shape(t) == Shape::Long {
                eq_from_bounds(t, 2);
            }
            assert(s.positionals == st.positionals);
        }
        assert forall|k: int| 0 <= k < s.positionals.len() implies 1 <= #[trigger] s.positionals[k]
            < i + 1 by {
            if k < st.positionals.len() {
                assert(s.positionals[k] == st.positionals[k]);
            }
        }
    }
}

fn shape_of(t: &str) -> (r: Shape)
    ensures
        r == shape(t@),
{
    let n = t.unicode_len();
    if n < 2 {
        return Shape::Value;
    }
    if t.get_char(0) != '-' {
        return Shape::Value;
    }
    if t.get_char(1) == '-' {
        if n == 2 {
            Shape::Separator
        } else {
            Shape::Long
        }
    } else {
        Shape::Short
    }
}

fn eq_index(t: &str, from: usize, n: usize) -> (e: usize)
    requires
        n == t@.len(),
        from <= n,
    ensures
        e == eq_from(t@, from as int),
        from <= e <= n,
{
    let mut k = from;
    while k < n
        invariant
            n == t@.len(),
            from <= k <= n,
            eq_from(t@, from as int) == eq_from(t@, k as int),
        decreases n - k,
    {
        if t.get_char(k) == '=' {
            return k;
        }
        k = k + 1;
    }
    k
}

fn long_name_of(name: &str) -> (r: LongName)
    ensures
        r == long_name(name@),
{
    if str_eq(name, "db") {
        LongName::Db
    } else if str_eq(name, "help") {
        LongName::Help
    } else if str_eq(name, "version") {
        LongName::Version
    } else if str_eq(name, "language") {
        LongName::Language
    } else if str_eq(name, "json") {
        LongName::Json
    } else if str_eq(name, "fix") {
        LongName::Fix
    } else if str_eq(name, "category") {
        LongName::Category
    } else {
        LongName::Other
    }
}

fn accepts_at(sub: Option<SubcommandKind>, n: LongName) -> (r: bool)
    ensures
        r == accepts(sub, n),
{
    match n {
        LongName::Db => true,
        LongName::Help => true,
        LongName::Version => sub.is_none(),
        LongName::Language => matches!(sub, Some(SubcommandKind::Validate)),
        LongName::Fix => matches!(sub, Some(SubcommandKind::Validate)),
        LongName::Json => matches!(sub, Some(SubcommandKind::Validate)) || matches!(
            sub,
            Some(SubcommandKind::Import)
        ),
        LongName::Category => matches!(sub, Some(SubcommandKind::Import)),
        LongName::Other => false,
    }
}

fn subcommand_of(t: &str) -> (r: Option<SubcommandKind>)
    ensures
        r == subcommand_named(t@),
{
    if str_eq(t, "serve") {
        Some(SubcommandKind::Serve)
    } else if str_eq(t, "validate") {
        Some(SubcommandKind::Validate)
    } else if str_eq(t, "list-patterns") {
        Some(SubcommandKind::ListPatterns)
    } else if str_eq(t, "import") {
        Some(SubcommandKind::Import)
    } else {
        None
    }
}

fn label_of(o: ValueOption) -> (r: String)
    ensures
        r@ == option_label(o),
{
    match o {
        ValueOption::Db => owned("--db"),
        ValueOption::Language => owned("--language"),
        ValueOption::Category => owned("--category"),
    }
}

fn refuse(kind: CliErrorKind, argument: String) -> (r: Result<Scan, CliError>)
    ensures
        scan_view(r) == Err::<ScanView, Refusal>((kind, argument@)),
{
    Err(CliError { kind, argument })
}

fn given(st: &Scan, o: ValueOption) -> (r: bool)
    ensures
        r == already_given(st@, o),
{
    match o {
        ValueOption::Db => if st.sub.is_none() {
            st.db_top.is_some()
        } else {
            st.db_sub.is_some()
        },
        ValueOption::Language => st.language.is_some(),
        ValueOption::Category => st.category.is_some(),
    }
}

fn set_value(st: &mut Scan, o: ValueOption, v: ArgSlice)
    ensures
        final(st)@ == with_value(old(st)@, o, v),
{
    match o {
        ValueOption::Db => if st.sub.is_none() {
            st.db_top = Some(v);
        } else {
            st.db_sub = Some(v);
        },
        ValueOption::Language => {
            st.language = Some(v);
        },
        ValueOption::Category => {
            st.category = Some(v);
        },
    }
    st.pending = None;
}

fn positional_step(t: &str, i: usize, st: Scan) -> (r: Result<Scan, CliError>)
    ensures
        scan_view(r) == positional(t@, i as int, st@),
{
    let mut st = st;
    match st.sub {
        Some(SubcommandKind::Validate) => if t.is_empty() {
            refuse(CliErrorKind::EmptyValue, owned("FILE"))
        } else {
            st.positionals.push(i);
            Ok(st)
        },
        Some(SubcommandKind::Import) => if st.positionals.len() != 0 {
            refuse(CliErrorKind::UnexpectedArgument, owned(t))
        } else if t.is_empty() {
            refuse(CliErrorKind::EmptyValue, owned("DIR"))
        } else {
            st.positionals.push(i);
            Ok(st)
        },
        _ => refuse(CliErrorKind::UnexpectedArgument, owned(t)),
    }
}

fn value_option_step(o: ValueOption, i: usize, e: usize, len: usize, st: Scan) -> (r: Result<
    Scan,
    CliError,
>)
    ensures
        scan_view(r) == value_option(o, i as int, e as int, len as int, st@),
{
    let mut st = st;
    if given(&st, o) {
        refuse(CliErrorKind::RepeatedArgument, label_of(o))
    } else if e < len {
        if matches!(o, ValueOption::Db) && e + 1 == len {
            refuse(CliErrorKind::EmptyValue, label_of(o))
        } else {
            set_value(&mut st, o, ArgSlice { arg: i, from: e + 1 });
            Ok(st)
        }
    } else {
        st.pending = Some(o);
        Ok(st)
    }
}

fn long_option_step(t: &str, i: usize, st: Scan) -> (r: Result<Scan, CliError>)
    requires
        shape(t@) == Shape::Long,
    ensures
        scan_view(r) == long_option(t@, i as int, st@),
{
    let len = t.unicode_len();
    let e = eq_index(t, 2, len);
    let n = long_name_of(t.substring_char(2, e));
    let has_value = e < len;
    let mut st = st;
    if !accepts_at(st.sub, n) {
        return refuse(CliErrorKind::UnexpectedArgument, owned(t));
    }
    match n {
        LongName::Help => if has_value {
            refuse(CliErrorKind::UnexpectedValue, owned(t))
        } else {
            refuse(CliErrorKind::Help, owned(t))
        },
        LongName::Version => if has_value {
            refuse(CliErrorKind::UnexpectedValue, owned(t))
        } else {
            refuse(CliErrorKind::Version, owned(t))
        },
        LongName::Json => if has_value {
            refuse(CliErrorKind::UnexpectedValue, owned(t))
        } else if st.json {
            refuse(CliErrorKind::RepeatedArgument, owned("--json"))
        } else {
            st.json = true;
            Ok(st)
        },
        LongName::Fix => if has_value {
            refuse(CliErrorKind::UnexpectedValue, owned(t))
        } else if st.fix {
            refuse(CliErrorKind::RepeatedArgument, owned("--fix"))
        } else {
            st.fix = true;
            Ok(st)
        },
        LongName::Db => value_option_step(ValueOption::Db, i, e, len, st),
        LongName::Language => value_option_step(ValueOption::Language, i, e, len, st),
        LongName::Category => value_option_step(ValueOption::Category, i, e, len, st),
        LongName::Other => refuse(CliErrorKind::UnexpectedArgument, owned(t)),
    }
}

fn scan_step(args: &[&str], i: usize, st: Scan) -> (r: Result<Scan, CliError>)
    requires
        1 <= i < args@.len(),
        scan_within(arg_views(args@), st@, i as int),
    ensures
        scan_view(r) == step(arg_views(args@), i as int, st@),
        r matches Ok(s) ==> scan_within(arg_views(args@), s@, i + 1),
{
    let ghost a = arg_views(args@);
    let t: &str = args[i];
    assert(t@ == a[i as int]);
    proof {
        step_within(a, i as int, st@);
    }
    let mut st = st;
    match st.pending {
        Some(o) => {
            if shape_of(t) == Shape::Value {
                if matches!(o, ValueOption::Db) && t.is_empty() {
                    return refuse(CliErrorKind::EmptyValue, label_of(o));
                }
                set_value(&mut st, o, ArgSlice { arg: i, from: 0 });
                Ok(st)
            } else {
                refuse(CliErrorKind::MissingValue, label_of(o))
            }
        },
        None => {
            if st.positional_only {
                return positional_step(t, i, st);
            }
            match shape_of(t) {
                Shape::Separator => if st.sub.is_none() {
                    refuse(CliErrorKind::UnexpectedArgument, owned(t))
                } else {
                    st.positional_only = true;
                    Ok(st)
                },
                Shape::Long => long_option_step(t, i, st),
                Shape::Short => if str_eq(t, "-h") {
                    refuse(CliErrorKind::Help, owned(t))
                } else if str_eq(t, "-V") && st.sub.is_none() {
                    refuse(CliErrorKind::Version, owned(t))
                } else {
                    refuse(CliErrorKind::UnexpectedArgument, owned(t))
                },
                Shape::Value => if st.sub.is_none() {
                    match subcommand_of(t) {
                        Some(k) => {
                            st.sub = Some(k);
                            Ok(st)
                        },
                        None => if str_eq(t, "help") {
                            refuse(CliErrorKind::Help, owned(t))
                        } else {
                            refuse(CliErrorKind::UnknownSubcommand, owned(t))
                        },
                    }
                } else {
                    positional_step(t, i, st)
                },
            }
        },
    }
}

proof fn scan_stays_refused(args: Seq<Seq<char>>, n: int, m: int)
    requires
        1 <= n <= m,
        scan(args, n) is Err,
    ensures
        scan(args, m) == scan(args, n),
    decreases m - n,
{
    if m > n {
        scan_stays_refused(args, n, m - 1);
    }
}

fn slice_string(args: &[&str], s: ArgSlice) -> (r: String)
    requires
        s.arg < args@.len(),
        s.from <= args@[s.arg as int]@.len(),
    ensures
        r@ == slice_view(arg_views(args@), s),
{
    let t: &str = args[s.arg];
    let n = t.unicode_len();
    let rest = t.substring_char(s.from, n);
    assert(rest@ =~= t@.skip(s.from as int));
    owned(rest)
}

fn opt_slice_string(args: &[&str], s: Option<ArgSlice>) -> (r: Option<String>)
    requires
        slice_within(arg_views(args@), s, args@.len() as int),
    ensures
        crate::models::opt_view(r) == opt_slice_view(arg_views(args@), s),
{
    match s {
        Some(v) => Some(slice_string(args, v)),
        None => None,
    }
}

fn finish_scan(args: &[&str], st: Scan) -> (r: Result<Cli, CliError>)
    requires
        scan_within(arg_views(args@), st@, args@.len() as int),
    ensures
        parse_view(r) == finish(arg_views(args@), st@),
{
    let ghost a = arg_views(args@);
    let db = if st.db_sub.is_some() {
        opt_slice_string(args, st.db_sub)
    } else {
        opt_slice_string(args, st.db_top)
    };
    if let Some(o) = st.pending {
        return Err(CliError { kind: CliErrorKind::MissingValue, argument: label_of(o) });
    }
    match st.sub {
        None => Err(CliError { kind: CliErrorKind::MissingSubcommand, argument: String::new() }),
        Some(SubcommandKind::Serve) => Ok(Cli { db, command: Command::Serve }),
        Some(SubcommandKind::ListPatterns) => Ok(Cli { db, command: Command::ListPatterns }),
        Some(SubcommandKind::Validate) => match st.language {
            None => Err(
                CliError { kind: CliErrorKind::MissingRequired, argument: owned("--language") },
            ),
            Some(l) => {
                if st.positionals.len() == 0 {
                    return Err(
                        CliError { kind: CliErrorKind::MissingRequired, argument: owned("FILE") },
                    );
                }
                let language = slice_string(args, l);
                let mut files: Vec<String> = Vec::new();
                let mut k: usize = 0;
                while k < st.positionals.len()
                    invariant
                        a == arg_views(args@),
                        scan_within(a, st@, args@.len() as int),
                        0 <= k <= st.positionals@.len(),
                        crate::text::views(files@) == st.positionals@.take(k as int).map_values(
                            |p: usize| a[p as int],
                        ),
                    decreases st.positionals@.len() - k,
                {
                    let p = st.positionals[k];
                    assert(1 <= st@.positionals[k as int] < args@.len());
                    let t: &str = args[p];
                    assert(t@ == a[p as int]);
                    let ghost before = files@;
                    files.push(owned(t));
                    assert(crate::text::views(files@) =~= crate::text::views(before).push(t@));
                    assert(st.positionals@.take(k as int + 1) =~= st.positionals@.take(k as int).push(p));
                    assert(crate::text::views(files@) =~= st.positionals@.take(k as int + 1).map_values(
                        |p: usize| a[p as int],
                    ));
                    k = k + 1;
                }
                assert(st.positionals@.take(st.positionals@.len() as int) =~= st.positionals@);
                Ok(
                    Cli {
                        db,
                        command: Command::Validate { language, json: st.json, fix: st.fix, files },
                    },
                )
            },
        },
        Some(SubcommandKind::Import) => {
            if st.positionals.len() == 0 {
                return Err(
                    CliError { kind: CliErrorKind::MissingRequired, argument: owned("DIR") },
                );
            }
            let p = st.positionals[0];
            assert(1 <= st@.positionals[0] < args@.len());
            let t: &str = args[p];
            let dir = owned(t);
            let category = opt_slice_string(args, st.category);
            Ok(Cli { db, command: Command::Import { dir, category, json: st.json } })
        },
    }
}

impl Cli {
    /// Reads `norma`'s command line (`args[0]` is the program name): what
    /// it asks for, or why it is refused, exactly as `spec_parse` states.
    pub fn try_parse_from(args: &[&str]) -> (r: Result<Cli, CliError>)
        ensures
            parse_view(r) == spec_parse(arg_views(args@)),
    {
        let ghost a = arg_views(args@);
        let mut st = Scan {
            sub: None,
            positional_only: false,
            pending: None,
            db_top: None,
            db_sub: None,
            language: None,
            category: None,
            json: false,
            fix: false,
            positionals: Vec::new(),
        };
        assert(st@ == initial_scan());
        let mut i: usize = 1;
        while i < args.len()
            invariant
                a == arg_views(args@),
                1 <= i,
                i <= args@.len() || i == 1,
                scan(a, i as int) == Ok::<ScanView, Refusal>(st@),
                scan_within(a, st@, i as int),
            decreases args@.len() - i,
        {
            match scan_step(args, i, st) {
                Ok(next) => {
                    st = next;
                },
                Err(e) => {
                    proof {
                        scan_stays_refused(a, i as int + 1, a.len() as int);
                    }
                    return Err(e);
                },
            }
            i = i + 1;
        }
        proof {
            if a.len() <= 1 {
                assert(scan(a, 1) == Ok::<ScanView, Refusal>(initial_scan()));
                assert(scan(a, a.len() as int) == scan(a, 1));
            }
        }
        assert(scan(a, a.len() as int) == Ok::<ScanView, Refusal>(st@));
        finish_scan(args, st)
    }

    /// Reads a command line that `spec_parse` accepts.
    pub fn parse_from(args: &[&str]) -> (r: Cli)
        requires
            spec_parse(arg_views(args@)) is Ok,
        ensures
            Ok::<CliView, Refusal>(r@) == spec_parse(arg_views(args@)),
    {
        match Cli::try_parse_from(args) {
            Ok(c) => c,
            Err(_) => {
                assert(false);
                Cli { db: None, command: Command::Serve }
            },
        }
    }
}

// ---------------------------------------------------------------------
// Reports
// ---------------------------------------------------------------------

/// One file's validation outcome, as `norma validate --json` emits it.
#[derive(Debug, Clone, PartialEq)]
pub struct FileReport {
    pub file: String,
    pub result: ValidationResult,
}

/// One file's outcome of `norma validate --fix`: how many fixes were
/// applied, the conflicts left unapplied, every pattern whose stored rule
/// no longer parses (`(pattern_id, parse error)`), and the violations that
/// remain after the fixes.
#[derive(Debug, Clone, PartialEq)]
pub struct FixReport {
    pub file: String,
    pub applied: usize,
    pub conflicts: Vec<FixConflict>,
    pub skipped_rules: Vec<(String, String)>,
    pub result: ValidationResult,
}

/// Whether `validate --fix` writes a file back: only when at least one fix
/// was applied, so an untouched file keeps its modification time.
pub fn should_write_back(fix: &FixResult) -> (r: bool)
    ensures
        r == (fix.applied_count > 0),
{
    fix.applied_count > 0
}

/// One file of `validate --fix`: the fixes applied to `code` and the
/// violations left in the fixed code, reported for `file`, with the fixed
/// code to write back when a fix was applied (`None` leaves the file
/// untouched). Fails as `apply_fixes` does.
pub fn fix_report(file: String, code: &str, language: &str, patterns: &[crate::models::Pattern]) -> (r: Result<
    (FixReport, Option<String>),
    crate::error::NormaError,
>)
    ensures
        match crate::pattern_engine::spec_resolve_language(language@) {
            None => r matches Err(crate::error::NormaError::UnsupportedLanguage { requested })
                && requested@ == language@,
            Some(key) => match crate::fixes::spec_fixes(patterns@, key, code@) {
                Err(e) => r == Err::<(FixReport, Option<String>), crate::error::NormaError>(e),
                Ok(v) => r matches Ok((rep, w)) && rep.file == file && rep.applied == v.applied_count
                    && conflict_views(rep.conflicts@) == v.conflicts && pair_views(
                    rep.skipped_rules@,
                ) == v.skipped_rules && crate::pattern_engine::is_validation_of(
                    rep.result,
                    patterns@,
                    key,
                    v.fixed_source,
                ) && (w is Some <==> v.applied_count > 0) && (w matches Some(t) ==> t@
                    == v.fixed_source),
            },
        },
{
    let fix = crate::pattern_engine::apply_fixes(code, language, patterns)?;
    let result = crate::pattern_engine::validate(fix.fixed_source.as_str(), language, patterns)?;
    let write = should_write_back(&fix);
    let FixResult { fixed_source, applied_count, conflicts, skipped_rules } = fix;
    let out = if write {
        Some(fixed_source)
    } else {
        None
    };
    Ok((FixReport { file, applied: applied_count, conflicts, skipped_rules, result }, out))
}

/// What a violation's line shows after `--`: its matched text, or its
/// message when it has none (a coverage warning).
pub open spec fn detail(v: ViolationView) -> Seq<char> {
    if v.matched_text.len() == 0 {
        v.message
    } else {
        v.matched_text
    }
}

/// `file:line:column: [severity] name -- detail`, with one-based line and
/// column.
pub open spec fn violation_line(file: Seq<char>, v: ViolationView) -> Seq<char> {
    file + ":"@ + decimal((v.line + 1) as nat) + ":"@ + decimal((v.column + 1) as nat) + ": ["@
        + v.severity.spec_as_str() + "] "@ + v.pattern_name + " -- "@ + detail(v) + "\n"@
}

/// One line per violation.
pub open spec fn violation_lines(file: Seq<char>, vs: Seq<ViolationView>) -> Seq<char> {
    concat_map(vs, |v: ViolationView| violation_line(file, v))
}

/// The human-readable report of one file: `no violations` and the time
/// taken, or one line per violation and a summary that counts blocking
/// (warning, error) and informational violations apart.
pub open spec fn human_readable(
    file: Seq<char>,
    vs: Seq<ViolationView>,
    score_text: Seq<char>,
    checked: nat,
    duration_ms: nat,
) -> Seq<char> {
    if vs.len() == 0 {
        file + ": no violations ("@ + decimal(duration_ms) + " ms)"@
    } else {
        violation_lines(file, vs) + decimal(blocking_count(vs)) + " violation(s) ("@ + decimal(
            (vs.len() - blocking_count(vs)) as nat,
        ) + " informational), score "@ + score_text + ", "@ + decimal(checked)
            + " pattern(s) checked ("@ + decimal(duration_ms) + " ms)"@
    }
}

fn violation_line_text(file: &str, v: &crate::models::PatternViolation) -> (r: String)
    ensures
        r@ == violation_line(file@, v@),
{
    let mut out = owned(file);
    out.append(":");
    out.append(u128_decimal(v.location.line as u128 + 1).as_str());
    out.append(":");
    out.append(u128_decimal(v.location.column as u128 + 1).as_str());
    out.append(": [");
    out.append(v.severity.as_str());
    out.append("] ");
    out.append(v.pattern_name.as_str());
    out.append(" -- ");
    if v.matched_text.as_str().is_empty() {
        out.append(v.message.as_str());
    } else {
        out.append(v.matched_text.as_str());
    }
    out.append("\n");
    out
}

/// Renders a validation result the way `norma validate` prints it without
/// `--json`. `score_text` is the score as printed (two decimals).
pub fn render_human_readable(file: &str, result: &ValidationResult, score_text: &str) -> (r: String)
    ensures
        r@ == human_readable(
            file@,
            violation_views(result.violations@),
            score_text@,
            result.checked_patterns as nat,
            result.duration_ms as nat,
        ),
{
    let ghost vs = violation_views(result.violations@);
    let ghost f = |v: ViolationView| violation_line(file@, v);
    if result.violations.len() == 0 {
        let mut out = owned(file);
        out.append(": no violations (");
        out.append(u128_decimal(result.duration_ms).as_str());
        out.append(" ms)");
        return out;
    }
    let mut out = String::new();
    let mut i: usize = 0;
    while i < result.violations.len()
        invariant
            0 <= i <= result.violations@.len(),
            vs == violation_views(result.violations@),
            f == (|v: ViolationView| violation_line(file@, v)),
            out@ == concat_map(vs.take(i as int), f),
        decreases result.violations@.len() - i,
    {
        proof {
            concat_map_take_one_more(vs, f, i as int);
        }
        let line = violation_line_text(file, &result.violations[i]);
        out.append(line.as_str());
        i = i + 1;
    }
    assert(vs.take(vs.len() as int) =~= vs);
    let blocking = count_blocking(&result.violations);
    out.append(usize_decimal(blocking).as_str());
    out.append(" violation(s) (");
    out.append(usize_decimal(result.violations.len() - blocking).as_str());
    out.append(" informational), score ");
    out.append(score_text);
    out.append(", ");
    out.append(usize_decimal(result.checked_patterns).as_str());
    out.append(" pattern(s) checked (");
    out.append(u128_decimal(result.duration_ms).as_str());
    out.append(" ms)");
    out
}

/// `file: applied N fix(es)` when any fix was applied.
pub open spec fn applied_line(file: Seq<char>, applied: nat) -> Seq<char> {
    if applied > 0 {
        file + ": applied "@ + decimal(applied) + " fix(es)\n"@
    } else {
        Seq::empty()
    }
}

/// The warning line of one unapplied conflict.
pub open spec fn conflict_line(file: Seq<char>, c: ConflictView) -> Seq<char> {
    file + ":"@ + decimal((c.line + 1) as nat) + ":"@ + decimal((c.column + 1) as nat)
        + ": [warning] fix conflict -- overlapping fixes from "@ + joined(c.pattern_ids, ", "@)
        + " were not applied\n"@
}

/// The warning line of one pattern whose stored rule no longer parses.
pub open spec fn skipped_rule_line(file: Seq<char>, p: (Seq<char>, Seq<char>)) -> Seq<char> {
    file + ": [warning] pattern "@ + std_debug_str(p.0) + " has an unparsable rule, skipped: "@
        + p.1 + "\n"@
}

/// The human-readable report of one file of `validate --fix`: the applied
/// count, one line per conflict, one per unparsable stored rule, then the
/// remaining violations as `human_readable` renders them.
pub open spec fn fix_report_text(file: Seq<char>, report: FixReport, score_text: Seq<char>) -> Seq<
    char,
> {
    applied_line(file, report.applied as nat) + concat_map(
        conflict_views(report.conflicts@),
        |c: ConflictView| conflict_line(file, c),
    ) + concat_map(
        pair_views(report.skipped_rules@),
        |p: (Seq<char>, Seq<char>)| skipped_rule_line(file, p),
    ) + human_readable(
        file,
        violation_views(report.result.violations@),
        score_text,
        report.result.checked_patterns as nat,
        report.result.duration_ms as nat,
    )
}

fn conflict_line_text(file: &str, c: &FixConflict) -> (r: String)
    ensures
        r@ == conflict_line(file@, c@),
{
    let mut out = owned(file);
    out.append(":");
    out.append(u128_decimal(c.location.line as u128 + 1).as_str());
    out.append(":");
    out.append(u128_decimal(c.location.column as u128 + 1).as_str());
    out.append(": [warning] fix conflict -- overlapping fixes from ");
    out.append(join(&c.pattern_ids, ", ").as_str());
    out.append(" were not applied\n");
    out
}

fn skipped_rule_line_text(file: &str, p: &(String, String)) -> (r: String)
    ensures
        r@ == skipped_rule_line(file@, (p.0@, p.1@)),
{
    let mut out = owned(file);
    out.append(": [warning] pattern ");
    out.append(debug_quoted(p.0.as_str()).as_str());
    out.append(" has an unparsable rule, skipped: ");
    out.append(p.1.as_str());
    out.append("\n");
    out
}

/// Renders a `FixReport` the way `norma validate --fix` prints it without
/// `--json`. `score_text` is the remaining result's score as printed.
pub fn render_fix_report(file: &str, report: &FixReport, score_text: &str) -> (r: String)
    ensures
        r@ == fix_report_text(file@, *report, score_text@),
{
    let ghost cs = conflict_views(report.conflicts@);
    let ghost cf = |c: ConflictView| conflict_line(file@, c);
    let ghost ps = pair_views(report.skipped_rules@);
    let ghost pf = |p: (Seq<char>, Seq<char>)| skipped_rule_line(file@, p);
    let mut out = String::new();
    if report.applied > 0 {
        let mut line = owned(file);
        line.append(": applied ");
        line.append(usize_decimal(report.applied).as_str());
        line.append(" fix(es)\n");
        out.append(line.as_str());
    }
    assert(out@ == applied_line(file@, report.applied as nat));
    let ghost head = out@;
    let mut i: usize = 0;
    while i < report.conflicts.len()
        invariant
            0 <= i <= report.conflicts@.len(),
            cs == conflict_views(report.conflicts@),
            cf == (|c: ConflictView| conflict_line(file@, c)),
            out@ == head + concat_map(cs.take(i as int), cf),
        decreases report.conflicts@.len() - i,
    {
        proof {
            concat_map_take_one_more(cs, cf, i as int);
        }
        let line = conflict_line_text(file, &report.conflicts[i]);
        out.append(line.as_str());
        i = i + 1;
    }
    assert(cs.take(cs.len() as int) =~= cs);
    let ghost middle = out@;
    let mut j: usize = 0;
    while j < report.skipped_rules.len()
        invariant
            0 <= j <= report.skipped_rules@.len(),
            ps == pair_views(report.skipped_rules@),
            pf == (|p: (Seq<char>, Seq<char>)| skipped_rule_line(file@, p)),
            out@ == middle + concat_map(ps.take(j as int), pf),
        decreases report.skipped_rules@.len() - j,
    {
        proof {
            concat_map_take_one_more(ps, pf, j as int);
        }
        let line = skipped_rule_line_text(file, &report.skipped_rules[j]);
        out.append(line.as_str());
        j = j + 1;
    }
    assert(ps.take(ps.len() as int) =~= ps);
    let rest = render_human_readable(file, &report.result, score_text);
    out.append(rest.as_str());
    out
}

/// `imported id [language]`.
pub open spec fn imported_line(p: crate::models::Pattern) -> Seq<char> {
    "imported "@ + p.spec_id() + " ["@ + p.spec_language() + "]\n"@
}

/// The id a skip is reported under: its own, or `<no id>`.
pub open spec fn skip_name(id: Option<String>) -> Seq<char> {
    match id {
        Some(v) => v@,
        None => "<no id>"@,
    }
}

/// `[warning] skipped id: reason`.
pub open spec fn skipped_line(s: SkippedRule) -> Seq<char> {
    "[warning] skipped "@ + skip_name(s.id) + ": "@ + s.reason@ + "\n"@
}

/// The human-readable report of a bulk import: one line per imported
/// pattern, one per skipped document, and a count of each.
pub open spec fn import_result_text(result: ImportResult) -> Seq<char> {
    concat_map(result.imported@, |p: crate::models::Pattern| imported_line(p)) + concat_map(
        result.skipped@,
        |s: SkippedRule| skipped_line(s),
    ) + decimal(result.imported@.len()) + " imported, "@ + decimal(result.skipped@.len())
        + " skipped"@
}

fn imported_line_text(p: &crate::models::Pattern) -> (r: String)
    ensures
        r@ == imported_line(*p),
{
    let mut out = owned("imported ");
    out.append(p.id());
    out.append(" [");
    out.append(p.language());
    out.append("]\n");
    out
}

fn skipped_line_text(s: &SkippedRule) -> (r: String)
    ensures
        r@ == skipped_line(*s),
{
    let mut out = owned("[warning] skipped ");
    match &s.id {
        Some(id) => out.append(id.as_str()),
        None => out.append("<no id>"),
    }
    out.append(": ");
    out.append(s.reason.as_str());
    out.append("\n");
    out
}

/// Renders an `ImportResult` the way `norma import` prints it without
/// `--json`.
pub fn render_import_result(result: &ImportResult) -> (r: String)
    ensures
        r@ == import_result_text(*result),
{
    let ghost pf = |p: crate::models::Pattern| imported_line(p);
    let ghost sf = |s: SkippedRule| skipped_line(s);
    let mut out = String::new();
    let mut i: usize = 0;
    while i < result.imported.len()
        invariant
            0 <= i <= result.imported@.len(),
            pf == (|p: crate::models::Pattern| imported_line(p)),
            out@ == concat_map(result.imported@.take(i as int), pf),
        decreases result.imported@.len() - i,
    {
        proof {
            concat_map_take_one_more(result.imported@, pf, i as int);
        }
        let line = imported_line_text(&result.imported[i]);
        out.append(line.as_str());
        i = i + 1;
    }
    assert(result.imported@.take(result.imported@.len() as int) =~= result.imported@);
    let ghost head = out@;
    let mut j: usize = 0;
    while j < result.skipped.len()
        invariant
            0 <= j <= result.skipped@.len(),
            sf == (|s: SkippedRule| skipped_line(s)),
            out@ == head + concat_map(result.skipped@.take(j as int), sf),
        decreases result.skipped@.len() - j,
    {
        proof {
            concat_map_take_one_more(result.skipped@, sf, j as int);
        }
        let line = skipped_line_text(&result.skipped[j]);
        out.append(line.as_str());
        j = j + 1;
    }
    assert(result.skipped@.take(result.skipped@.len() as int) =~= result.skipped@);
    out.append(usize_decimal(result.imported.len()).as_str());
    out.append(" imported, ");
    out.append(usize_decimal(result.skipped.len()).as_str());
    out.append(" skipped");
    out
}

/// Whether `norma import` exits non-zero: whenever anything was skipped,
/// so a scripted run cannot mistake a partly rejected import for a clean
/// one.
pub fn import_should_fail(result: &ImportResult) -> (r: bool)
    ensures
        r == !(result.skipped@.len() == 0),
{
    !result.fully_succeeded()
}

// ---------------------------------------------------------------------
// Importing a directory
// ---------------------------------------------------------------------

/// Whether a file name has the extension `yml` or `yaml`: the text after
/// its last `.`, where that `.` is not the name's first character (as
/// `Path::extension` reads it).
pub open spec fn is_rule_file_name(name: Seq<char>) -> bool {
    exists|k: int|
        #![trigger name[k]]
        0 < k < name.len() && name[k] == '.' && (forall|j: int| k < j < name.len() ==> name[j] != '.')
            && (name.skip(k + 1) == "yml"@ || name.skip(k + 1) == "yaml"@)
}

/// Whether a directory name is hidden (starts with `.`); such directories
/// (`.git`, `.github`, ...) are never searched for rules.
pub open spec fn is_hidden_name(name: Seq<char>) -> bool {
    name.len() > 0 && name[0] == '.'
}

/// Whether a directory entry named `name` is a rule file to import.
pub fn rule_file_name(name: &str) -> (r: bool)
    ensures
        r == is_rule_file_name(name@),
{
    let n = name.unicode_len();
    let mut k = n;
    while k > 0
        invariant
            n == name@.len(),
            0 <= k <= n,
            forall|j: int| k <= j < n ==> name@[j] != '.',
        decreases k,
    {
        if name.get_char(k - 1) == '.' {
            let dot = k - 1;
            if dot == 0 {
                proof {
                    assert forall|d: int| 0 < d < name@.len() && name@[d] == '.' implies exists|j: int|
                        d < j < name@.len() && name@[j] == '.' by {
                        assert(d >= k);
                    }
                }
                return false;
            }
            let ext = name.substring_char(dot + 1, n);
            assert(ext@ =~= name@.skip(dot + 1));
            let r = str_eq(ext, "yml") || str_eq(ext, "yaml");
            proof {
                if r {
                    assert(name@[dot as int] == '.');
                } else {
                    assert forall|d: int|
                        0 < d < name@.len() && name@[d] == '.' && (forall|j: int|
                            d < j < name@.len() ==> name@[j] != '.') implies !(name@.skip(d + 1)
                        == "yml"@ || name@.skip(d + 1) == "yaml"@) by {
                        if d < dot {
                            assert(name@[dot as int] == '.');
                        }
                    }
                }
            }
            return r;
        }
        k = k - 1;
    }
    false
}

/// Whether a directory named `name` is skipped when searching for rules.
pub fn hidden_name(name: &str) -> (r: bool)
    ensures
        r == is_hidden_name(name@),
{
    name.unicode_len() > 0 && name.get_char(0) == '.'
}

/// A skip attributed to the file it came from: `file: reason`.
pub open spec fn attributed(file: Seq<char>, s: SkippedRule) -> (Option<Seq<char>>, Seq<char>) {
    (crate::models::opt_view(s.id), file + ": "@ + s.reason@)
}

/// The views of skipped documents.
pub open spec fn skip_views(v: Seq<SkippedRule>) -> Seq<(Option<Seq<char>>, Seq<char>)> {
    v.map_values(|s: SkippedRule| (crate::models::opt_view(s.id), s.reason@))
}

/// Adds one file's import to a directory's import. Its patterns are added
/// as they are and its skips are attributed to the file. A file that did
/// not even split into documents (an invalid rule error) becomes one skip
/// without an id, naming the file; the import of the other files goes on.
/// A storage failure ends the whole import and is handed back.
pub fn merge_file_import(
    acc: &mut ImportResult,
    file: &str,
    outcome: Result<ImportResult, RegisterPatternError>,
) -> (r: Result<(), RegisterPatternError>)
    ensures
        match outcome {
            Ok(res) => r is Ok && final(acc).imported@ == old(acc).imported@ + res.imported@
                && skip_views(final(acc).skipped@) == skip_views(old(acc).skipped@)
                + res.skipped@.map_values(|s: SkippedRule| attributed(file@, s)),
            Err(RegisterPatternError::InvalidRule(e)) => r is Ok && final(acc).imported
                == old(acc).imported && final(acc).skipped@.len() == old(acc).skipped@.len() + 1
                && final(acc).skipped@.drop_last() == old(acc).skipped@
                && final(acc).skipped@.last().id is None
                && final(acc).skipped@.last().reason@.take(file@.len() + 2int) == file@ + ": "@
                && e.is_message_of(final(acc).skipped@.last().reason@.skip(file@.len() + 2int)),
            Err(RegisterPatternError::Storage(m)) => r matches Err(RegisterPatternError::Storage(
                x,
            )) && x == m && *final(acc) == *old(acc),
        },
{
    match outcome {
        Ok(res) => {
            let ghost before = acc.skipped@;
            let ghost added = res.skipped@;
            let ghost f = |s: SkippedRule| attributed(file@, s);
            let mut imported = res.imported;
            acc.imported.append(&mut imported);
            let ghost imported_after = acc.imported@;
            let mut i: usize = 0;
            while i < res.skipped.len()
                invariant
                    acc.imported@ == imported_after,
                    0 <= i <= added.len(),
                    added == res.skipped@,
                    f == (|s: SkippedRule| attributed(file@, s)),
                    skip_views(acc.skipped@) == skip_views(before) + added.take(i as int).map_values(f),
                decreases added.len() - i,
            {
                let skip = &res.skipped[i];
                let mut reason = owned(file);
                reason.append(": ");
                reason.append(skip.reason.as_str());
                let ghost prev = acc.skipped@;
                acc.skipped.push(SkippedRule { id: crate::text::clone_opt(&skip.id), reason });
                assert(skip_views(acc.skipped@) =~= skip_views(prev).push(f(added[i as int])));
                assert(added.take(i as int + 1).map_values(f) =~= added.take(i as int).map_values(
                    f,
                ).push(f(added[i as int])));
                i = i + 1;
            }
            assert(added.take(added.len() as int) =~= added);
            Ok(())
        },
        Err(RegisterPatternError::InvalidRule(e)) => {
            let m = e.message();
            let mut reason = owned(file);
            reason.append(": ");
            reason.append(m.as_str());
            proof {
                reveal_strlit(": ");
                assert(reason@.take(file@.len() + 2int) =~= file@ + ": "@);
                assert(reason@.skip(file@.len() + 2int) =~= m@);
            }
            acc.skipped.push(SkippedRule { id: None, reason });
            Ok(())
        },
        Err(RegisterPatternError::Storage(m)) => Err(RegisterPatternError::Storage(m)),
    }
}

/// Why `norma import <dir>` imported nothing at all.
#[derive(Debug, Clone, PartialEq)]
pub enum ImportDirError {
    /// The directory holds no `.yml`/`.yaml` file.
    NoRuleFiles,
    /// Rule files were found, but none held a rule document.
    NoRuleDocuments { files: usize },
}

impl ImportDirError {
    /// The error's message for the directory `dir`.
    pub open spec fn spec_message(self, dir: Seq<char>) -> Seq<char> {
        match self {
            ImportDirError::NoRuleFiles => dir + ": no .yml/.yaml files found"@,
            ImportDirError::NoRuleDocuments { files } => dir + ": found "@ + decimal(files as nat)
                + " .yml/.yaml file(s), but none contained a RuleConfig document"@,
        }
    }

    /// The error's message for the directory `dir`.
    pub fn message(&self, dir: &str) -> (r: String)
        ensures
            r@ == self.spec_message(dir@),
    {
        let mut out = owned(dir);
        match self {
            ImportDirError::NoRuleFiles => {
                out.append(": no .yml/.yaml files found");
            },
            ImportDirError::NoRuleDocuments { files } => {
                out.append(": found ");
                out.append(usize_decimal(*files).as_str());
                out.append(" .yml/.yaml file(s), but none contained a RuleConfig document");
            },
        }
        out
    }
}

/// The outcome of `norma import <dir>` once every found file was imported:
/// no file found, or files found and nothing at all imported or skipped,
/// is refused, so such a scan cannot pass for a clean import.
pub fn finish_import_dir(file_count: usize, acc: ImportResult) -> (r: Result<
    ImportResult,
    ImportDirError,
>)
    ensures
        file_count == 0 ==> r == Err::<ImportResult, ImportDirError>(ImportDirError::NoRuleFiles),
        file_count > 0 && acc.imported@.len() == 0 && acc.skipped@.len() == 0 ==> r == Err::<
            ImportResult,
            ImportDirError,
        >(ImportDirError::NoRuleDocuments { files: file_count }),
        file_count > 0 && (acc.imported@.len() > 0 || acc.skipped@.len() > 0) ==> r
            == Ok::<ImportResult, ImportDirError>(acc),
{
    if file_count == 0 {
        Err(ImportDirError::NoRuleFiles)
    } else if acc.imported.len() == 0 && acc.skipped.len() == 0 {
        Err(ImportDirError::NoRuleDocuments { files: file_count })
    } else {
        Ok(acc)
    }
}

// ---------------------------------------------------------------------
// The database location
// ---------------------------------------------------------------------

/// An environment value that is set and not empty.
pub open spec fn env_value(v: Option<String>) -> Option<Seq<char>> {
    match v {
        Some(s) => if s@.len() > 0 {
            Some(s@)
        } else {
            None
        },
        None => None,
    }
}

/// `base` joined with the relative path `rel`, with one `/` between them
/// (none added when `base` already ends with one).
pub open spec fn path_join(base: Seq<char>, rel: Seq<char>) -> Seq<char> {
    if base.len() > 0 && base.last() == '/' {
        base + rel
    } else {
        base + "/"@ + rel
    }
}

/// Where the pattern database lives, in order of precedence: `--db`, then
/// `$NORMA_DB`, then `$XDG_DATA_HOME/norma/norma.db`, then
/// `$HOME/.local/share/norma/norma.db`, and `norma.db` when even `$HOME` is
/// unset. An environment value set to the empty string counts as unset.
pub open spec fn spec_resolve_db_path(
    flag: Option<String>,
    norma_db_env: Option<String>,
    xdg_data_home_env: Option<String>,
    home_env: Option<String>,
) -> Seq<char> {
    match flag {
        Some(p) => p@,
        None => match env_value(norma_db_env) {
            Some(e) => e,
            None => match env_value(xdg_data_home_env) {
                Some(x) => path_join(x, "norma/norma.db"@),
                None => match env_value(home_env) {
                    Some(h) => path_join(h, ".local/share/norma/norma.db"@),
                    None => "norma.db"@,
                },
            },
        },
    }
}

fn joined_path(base: String, rel: &str) -> (r: String)
    ensures
        r@ == path_join(base@, rel@),
{
    let n = base.as_str().unicode_len();
    let mut out = base;
    if n > 0 && out.as_str().get_char(n - 1) == '/' {
        out.append(rel);
    } else {
        out.append("/");
        out.append(rel);
    }
    out
}

/// Decides where the pattern database lives (see `spec_resolve_db_path`),
/// from the `--db` flag and the values of `$NORMA_DB`, `$XDG_DATA_HOME`
/// and `$HOME`, handed in rather than read here.
pub fn resolve_db_path(
    flag: Option<String>,
    norma_db_env: Option<String>,
    xdg_data_home_env: Option<String>,
    home_env: Option<String>,
) -> (r: String)
    ensures
        r@ == spec_resolve_db_path(flag, norma_db_env, xdg_data_home_env, home_env),
{
    if let Some(path) = flag {
        return path;
    }
    if let Some(env) = norma_db_env {
        if !env.as_str().is_empty() {
            return env;
        }
    }
    if let Some(xdg) = xdg_data_home_env {
        if !xdg.as_str().is_empty() {
            return joined_path(xdg, "norma/norma.db");
        }
    }
    if let Some(home) = home_env {
        if !home.as_str().is_empty() {
            return joined_path(home, ".local/share/norma/norma.db");
        }
    }
    owned("norma.db")
}

// ---------------------------------------------------------------------
// Exit status and listing
// ---------------------------------------------------------------------

/// Whether every file of a `validate` run passed; any file with a
/// blocking violation fails the whole run (exit status 1), which is what
/// makes `validate` usable as a pre-commit hook over a batch of files.
pub fn all_passed(reports: &[FileReport]) -> (r: bool)
    ensures
        r == (forall|k: int| 0 <= k < reports@.len() ==> (#[trigger] reports@[k]).result.passed),
{
    let mut i: usize = 0;
    while i < reports.len()
        invariant
            0 <= i <= reports@.len(),
            forall|k: int| 0 <= k < i ==> (#[trigger] reports@[k]).result.passed,
        decreases reports@.len() - i,
    {
        if !reports[i].result.passed {
            return false;
        }
        i = i + 1;
    }
    true
}

/// Whether every file of a `validate --fix` run passed once its fixes
/// were applied; `--fix` still fails for whatever the fixes left.
pub fn all_fixed_passed(reports: &[FixReport]) -> (r: bool)
    ensures
        r == (forall|k: int| 0 <= k < reports@.len() ==> (#[trigger] reports@[k]).result.passed),
{
    let mut i: usize = 0;
    while i < reports.len()
        invariant
            0 <= i <= reports@.len(),
            forall|k: int| 0 <= k < i ==> (#[trigger] reports@[k]).result.passed,
        decreases reports@.len() - i,
    {
        if !reports[i].result.passed {
            return false;
        }
        i = i + 1;
    }
    true
}

/// `s` left-aligned in a field of `width` characters (padded with spaces
/// on the right, never cut), as `{:<width}` formats it.
pub open spec fn padded(s: Seq<char>, width: nat) -> Seq<char> {
    if s.len() >= width {
        s
    } else {
        s + Seq::new((width - s.len()) as nat, |i: int| ' ')
    }
}

fn pad_to(s: &str, width: usize) -> (r: String)
    ensures
        r@ == padded(s@, width as nat),
{
    let n = s.unicode_len();
    let mut out = owned(s);
    let mut k = n;
    while k < width
        invariant
            n == s@.len(),
            n <= k <= width || (n > width && k == n),
            out@ == s@ + Seq::new((k - n) as nat, |i: int| ' '),
        decreases width - k,
    {
        out.append(" ");
        proof {
            reveal_strlit(" ");
        }
        assert(out@ =~= s@ + Seq::new((k + 1 - n) as nat, |i: int| ' '));
        k = k + 1;
    }
    assert(n >= width ==> out@ =~= s@);
    out
}

/// One line of `norma list-patterns`: id and language in columns of 28
/// and 10 characters, the severity in brackets, then the name.
pub open spec fn pattern_line(p: crate::models::Pattern) -> Seq<char> {
    padded(p.spec_id(), 28) + " "@ + padded(p.spec_language(), 10) + " ["@
        + p.spec_severity().spec_as_str() + "] "@ + p.spec_name()@
}

/// Renders one line of `norma list-patterns`.
pub fn render_pattern_line(p: &crate::models::Pattern) -> (r: String)
    ensures
        r@ == pattern_line(*p),
{
    let mut out = pad_to(p.id(), 28);
    out.append(" ");
    out.append(pad_to(p.language(), 10).as_str());
    out.append(" [");
    out.append(p.severity().as_str());
    out.append("] ");
    proof {
        crate::models::pattern_accessors(*p);
    }
    out.append(p.name.as_str());
    out
}

/// Whether an argument is a `--db` option (`--db` or `--db=...`).
pub open spec fn names_db(t: Seq<char>) -> bool {
    shape(t) == Shape::Long && long_name(t.subrange(2, eq_from(t, 2))) == LongName::Db
}

/// Two scans that differ only in where `--db` was read: before the
/// subcommand (argument 2) in `s1`, right after it (argument 3) in `s2`;
/// every other value and positional lies at argument 4 or later.
spec fn db_moved(s1: ScanView, s2: ScanView) -> bool {
    &&& s1.db_top == Some(ArgSlice { arg: 2, from: 0 })
    &&& s1.db_sub is None
    &&& s2.db_top is None
    &&& s2.db_sub == Some(ArgSlice { arg: 3, from: 0 })
    &&& s1.sub is Some
    &&& s1.sub == s2.sub
    &&& s1.positional_only == s2.positional_only
    &&& s1.pending == s2.pending
    &&& s1.pending != Some(ValueOption::Db)
    &&& s1.language == s2.language
    &&& s1.category == s2.category
    &&& s1.json == s2.json
    &&& s1.fix == s2.fix
    &&& s1.positionals == s2.positionals
    &&& (s1.language matches Some(l) ==> l.arg >= 4)
    &&& (s1.category matches Some(c) ==> c.arg >= 4)
    &&& forall|k: int| 0 <= k < s1.positionals.len() ==> #[trigger] s1.positionals[k] >= 4
}

proof fn step_keeps_db_moved(
    b: Seq<Seq<char>>,
    a: Seq<Seq<char>>,
    i: int,
    s1: ScanView,
    s2: ScanView,
)
    requires
        4 <= i < b.len(),
        i < a.len(),
        i < usize::MAX,
        b[i] == a[i],
        !names_db(b[i]),
        db_moved(s1, s2),
    ensures
        match (step(b, i, s1), step(a, i, s2)) {
            (Ok(x), Ok(y)) => db_moved(x, y),
            (Err(e1), Err(e2)) => e1 == e2,
            _ => false,
        },
{
    let t = b[i];
    let r1 = step(b, i, s1);
    let r2 = step(a, i, s2);
    if r1 is Ok && r2 is Ok {
        let x = r1->Ok_0;
        let y = r2->Ok_0;
        if s1.pending is None && (s1.positional_only || (shape(t) == Shape::Value && s1.sub is Some)) {
            assert(x.positionals == s1.positionals.push(i as usize));
        } else {
            assert(x.positionals == s1.positionals);
        }
        assert forall|k: int| 0 <= k < x.positionals.len() implies #[trigger] x.positionals[k] >= 4 by {
            if k < s1.positionals.len() {
                assert(x.positionals[k] == s1.positionals[k]);
            }
        }
    }
}

proof fn scans_keep_db_moved(
    b: Seq<Seq<char>>,
    a: Seq<Seq<char>>,
    rest: Seq<Seq<char>>,
    n: int,
)
    requires
        b.len() == a.len(),
        b.len() == rest.len() + 4,
        b.len() < usize::MAX,
        forall|j: int| 0 <= j < rest.len() ==> b[j + 4] == #[trigger] rest[j] && a[j + 4] == rest[j],
        forall|j: int| 0 <= j < rest.len() ==> !names_db(#[trigger] rest[j]),
        0 <= n <= rest.len(),
        scan(b, 4) matches Ok(x) && scan(a, 4) matches Ok(y) && db_moved(x, y),
    ensures
        match (scan(b, 4 + n), scan(a, 4 + n)) {
            (Ok(x), Ok(y)) => db_moved(x, y),
            (Err(e1), Err(e2)) => e1 == e2,
            _ => false,
        },
    decreases n,
{
    if n > 0 {
        scans_keep_db_moved(b, a, rest, n - 1);
        let i = 4 + n - 1;
        assert(b[i] == rest[n - 1]);
        match (scan(b, i), scan(a, i)) {
            (Ok(x), Ok(y)) => {
                step_keeps_db_moved(b, a, i, x, y);
            },
            _ => {},
        }
    }
}

proof fn scan_is_within(args: Seq<Seq<char>>, n: int)
    requires
        1 <= n <= args.len(),
        args.len() < usize::MAX,
    ensures
        scan(args, n) matches Ok(st) ==> scan_within(args, st, n),
    decreases n,
{
    if n > 1 {
        scan_is_within(args, n - 1);
        if let Ok(st) = scan(args, n - 1) {
            step_within(args, n - 1, st);
        }
    }
}

/// How `--category` and `--language` read: as long options named
/// `category` and `language`, with no `=` value.
proof fn value_option_names_read()
    ensures
        shape("--category"@) == Shape::Long,
        eq_from("--category"@, 2) == 10,
        "--category"@.len() == 10,
        long_name("--category"@.subrange(2, 10)) == LongName::Category,
        shape("--language"@) == Shape::Long,
        eq_from("--language"@, 2) == 10,
        "--language"@.len() == 10,
        long_name("--language"@.subrange(2, 10)) == LongName::Language,
{
    reveal_strlit("--category");
    reveal_strlit("--language");
    reveal_strlit("category");
    reveal_strlit("language");
    reveal_strlit("db");
    reveal_strlit("help");
    reveal_strlit("version");
    reveal_strlit("json");
    reveal_strlit("fix");
    let c = "--category"@;
    let l = "--language"@;
    assert(c =~= seq!['-', '-', 'c', 'a', 't', 'e', 'g', 'o', 'r', 'y']);
    assert(l =~= seq!['-', '-', 'l', 'a', 'n', 'g', 'u', 'a', 'g', 'e']);
    assert(eq_from(c, 10) == 10);
    assert(eq_from(c, 9) == 10);
    assert(eq_from(c, 8) == 10);
    assert(eq_from(c, 7) == 10);
    assert(eq_from(c, 6) == 10);
    assert(eq_from(c, 5) == 10);
    assert(eq_from(c, 4) == 10);
    assert(eq_from(c, 3) == 10);
    assert(eq_from(l, 10) == 10);
    assert(eq_from(l, 9) == 10);
    assert(eq_from(l, 8) == 10);
    assert(eq_from(l, 7) == 10);
    assert(eq_from(l, 6) == 10);
    assert(eq_from(l, 5) == 10);
    assert(eq_from(l, 4) == 10);
    assert(eq_from(l, 3) == 10);
    assert(c.subrange(2, 10) =~= "category"@);
    assert(l.subrange(2, 10) =~= "language"@);
    assert("category"@[0] != "language"@[0]);
    assert("category"@ != "language"@);
}

/// Whether an optional value lies at or after argument `m`.
pub open spec fn slice_from(s: Option<ArgSlice>, m: int) -> bool {
    s matches Some(v) ==> v.arg >= m
}

/// Whether two optional values read the same text (in `b` and `a`).
pub open spec fn same_value(b: Seq<Seq<char>>, a: Seq<Seq<char>>, x: Option<ArgSlice>, y: Option<ArgSlice>) -> bool {
    match (x, y) {
        (None, None) => true,
        (Some(u), Some(v)) => slice_view(b, u) == slice_view(a, v),
        _ => false,
    }
}

/// Two scans of `b` and `a` that differ only in where the first
/// positional was read (argument `pb` of `b`, `pa` of `a`) and where
/// `--language` and `--category` took their values (the same text); the
/// other positionals and `--db` values lie at or after argument `m`.
pub open spec fn operand_moved(
    b: Seq<Seq<char>>,
    a: Seq<Seq<char>>,
    s1: ScanView,
    s2: ScanView,
    pb: int,
    pa: int,
    m: int,
) -> bool {
    &&& s2 == ScanView { positionals: s2.positionals, language: s2.language, category: s2.category, ..s1 }
    &&& same_value(b, a, s1.language, s2.language)
    &&& same_value(b, a, s1.category, s2.category)
    &&& s1.positionals.len() == s2.positionals.len()
    &&& s1.positionals.len() > 0
    &&& s1.positionals[0] == pb
    &&& s2.positionals[0] == pa
    &&& forall|k: int|
        1 <= k < s1.positionals.len() ==> #[trigger] s1.positionals[k] == s2.positionals[k]
            && s1.positionals[k] >= m
    &&& slice_from(s1.db_top, m)
    &&& slice_from(s1.db_sub, m)
}

proof fn step_keeps_operand_moved(
    b: Seq<Seq<char>>,
    a: Seq<Seq<char>>,
    i: int,
    s1: ScanView,
    s2: ScanView,
    pb: int,
    pa: int,
    m: int,
)
    requires
        1 <= m <= i < b.len(),
        i < a.len(),
        i < usize::MAX,
        b[i] == a[i],
        operand_moved(b, a, s1, s2, pb, pa, m),
    ensures
        match (step(b, i, s1), step(a, i, s2)) {
            (Ok(x), Ok(y)) => operand_moved(b, a, x, y, pb, pa, m),
            (Err(e1), Err(e2)) => e1 == e2,
            _ => false,
        },
{
    let t = b[i];
    let r1 = step(b, i, s1);
    let r2 = step(a, i, s2);
    if s1.pending is None && (s1.positional_only || (shape(t) == Shape::Value && s1.sub is Some)) {
        if let (Ok(x), Ok(y)) = (r1, r2) {
            assert(x.positionals == s1.positionals.push(i as usize));
            assert(y.positionals == s2.positionals.push(i as usize));
            assert forall|k: int| 1 <= k < x.positionals.len() implies #[trigger] x.positionals[k]
                == y.positionals[k] && x.positionals[k] >= m by {
                if k < s1.positionals.len() {
                    assert(x.positionals[k] == s1.positionals[k]);
                    assert(y.positionals[k] == s2.positionals[k]);
                }
            }
        }
    } else {
        if let (Ok(x), Ok(y)) = (r1, r2) {
            assert(x.positionals == s1.positionals);
            assert(y.positionals == s2.positionals);
            assert((i as usize) as int == i);
            if x.language != s1.language || y.language != s2.language {
                assert(x.language == y.language);
                assert(x.language->0.arg == i);
                assert(slice_view(b, x.language->0) == slice_view(a, y.language->0));
            }
            if x.category != s1.category || y.category != s2.category {
                assert(x.category == y.category);
                assert(x.category->0.arg == i);
                assert(slice_view(b, x.category->0) == slice_view(a, y.category->0));
            }
            assert(same_value(b, a, x.language, y.language));
            assert(same_value(b, a, x.category, y.category));
        }
    }
}

proof fn scans_keep_operand_moved(
    b: Seq<Seq<char>>,
    a: Seq<Seq<char>>,
    rest: Seq<Seq<char>>,
    n: int,
    pb: int,
    pa: int,
    m: int,
)
    requires
        b.len() == a.len(),
        b.len() == rest.len() + m,
        b.len() < usize::MAX,
        1 <= m,
        forall|j: int| 0 <= j < rest.len() ==> b[j + m] == #[trigger] rest[j] && a[j + m] == rest[j],
        0 <= n <= rest.len(),
        scan(b, m) matches Ok(x) && scan(a, m) matches Ok(y) && operand_moved(b, a, x, y, pb, pa, m),
    ensures
        match (scan(b, m + n), scan(a, m + n)) {
            (Ok(x), Ok(y)) => operand_moved(b, a, x, y, pb, pa, m),
            (Err(e1), Err(e2)) => e1 == e2,
            _ => false,
        },
    decreases n,
{
    if n > 0 {
        scans_keep_operand_moved(b, a, rest, n - 1, pb, pa, m);
        let i = m + n - 1;
        assert(b[i] == rest[n - 1]);
        match (scan(b, i), scan(a, i)) {
            (Ok(x), Ok(y)) => {
                step_keeps_operand_moved(b, a, i, x, y, pb, pa, m);
            },
            _ => {},
        }
    }
}

/// Two scans related by `operand_moved`, over argument lists that agree
/// from argument `m` on and hold the same operand at `pb` and `pa`, give
/// the same command line.
proof fn finish_with_operand_moved(
    b: Seq<Seq<char>>,
    a: Seq<Seq<char>>,
    x: ScanView,
    y: ScanView,
    pb: int,
    pa: int,
    m: int,
)
    requires
        b.len() == a.len(),
        0 <= pb < m,
        0 <= pa < m,
        b[pb] == a[pa],
        forall|j: int| m <= j < b.len() ==> #[trigger] b[j] == a[j],
        operand_moved(b, a, x, y, pb, pa, m),
        scan_within(b, x, b.len() as int),
    ensures
        finish(b, x) == finish(a, y),
{
    assert(x.positionals.map_values(|p: usize| b[p as int]) =~= y.positionals.map_values(
        |p: usize| a[p as int],
    )) by {
        assert forall|k: int| 0 <= k < x.positionals.len() implies b[#[trigger] x.positionals[k] as int]
            == a[y.positionals[k] as int] by {
            if k > 0 {
                assert(x.positionals[k] == y.positionals[k]);
                assert(b[x.positionals[k] as int] == a[x.positionals[k] as int]);
            }
        }
    }
    if let Some(v) = x.db_top {
        assert(b[v.arg as int] == a[v.arg as int]);
    }
    if let Some(v) = x.db_sub {
        assert(b[v.arg as int] == a[v.arg as int]);
    }
}

/// How `--json` and `--fix` read: as long options named `json` and
/// `fix`, with no `=` value.
proof fn flag_names_read()
    ensures
        shape("--json"@) == Shape::Long,
        eq_from("--json"@, 2) == 6,
        "--json"@.len() == 6,
        long_name("--json"@.subrange(2, 6)) == LongName::Json,
        shape("--fix"@) == Shape::Long,
        eq_from("--fix"@, 2) == 5,
        "--fix"@.len() == 5,
        long_name("--fix"@.subrange(2, 5)) == LongName::Fix,
{
    reveal_strlit("--json");
    reveal_strlit("--fix");
    reveal_strlit("category");
    reveal_strlit("language");
    reveal_strlit("db");
    reveal_strlit("help");
    reveal_strlit("version");
    reveal_strlit("json");
    reveal_strlit("fix");
    let j = "--json"@;
    let f = "--fix"@;
    assert(j =~= seq!['-', '-', 'j', 's', 'o', 'n']);
    assert(f =~= seq!['-', '-', 'f', 'i', 'x']);
    assert(eq_from(j, 6) == 6);
    assert(eq_from(j, 5) == 6);
    assert(eq_from(j, 4) == 6);
    assert(eq_from(j, 3) == 6);
    assert(eq_from(f, 5) == 5);
    assert(eq_from(f, 4) == 5);
    assert(eq_from(f, 3) == 5);
    assert(j.subrange(2, 6) =~= "json"@);
    assert(f.subrange(2, 5) =~= "fix"@);
    assert("json"@[0] != "help"@[0]);
    assert("fix"@[0] != "db"@[0]);
}

/// A subcommand's own flag may come before or after its positional
/// argument: `import --json DIR` reads as `import DIR --json`, and
/// `validate --json FILE` / `validate --fix FILE` as `validate FILE
/// --json` / `validate FILE --fix`, whatever the positional and whatever
/// follows.
pub proof fn flag_may_follow_the_positional(
    program: Seq<char>,
    sub: Seq<char>,
    flag: Seq<char>,
    operand: Seq<char>,
    rest: Seq<Seq<char>>,
)
    requires
        (sub == "import"@ && flag == "--json"@) || (sub == "validate"@ && (flag == "--json"@ || flag
            == "--fix"@)),
        shape(operand) == Shape::Value,
        rest.len() + 4 < usize::MAX,
    ensures
        spec_parse(seq![program, sub, flag, operand] + rest) == spec_parse(
            seq![program, sub, operand, flag] + rest,
        ),
{
    reveal_strlit("serve");
    reveal_strlit("validate");
    reveal_strlit("list-patterns");
    reveal_strlit("import");
    flag_names_read();
    let b = seq![program, sub, flag, operand] + rest;
    let a = seq![program, sub, operand, flag] + rest;
    assert(b[1] == sub && b[2] == flag && b[3] == operand);
    assert(a[1] == sub && a[2] == operand && a[3] == flag);
    assert(shape(sub) == Shape::Value);
    assert(scan(b, 1) == Ok::<ScanView, Refusal>(initial_scan()));
    assert(scan(a, 1) == Ok::<ScanView, Refusal>(initial_scan()));
    assert(scan(b, 2) == step(b, 1, initial_scan()));
    assert(scan(a, 2) == step(a, 1, initial_scan()));
    assert(scan(b, 2) is Ok && scan(a, 2) == scan(b, 2));
    assert(scan(b, 3) == step(b, 2, scan(b, 2)->Ok_0));
    assert(scan(a, 3) == step(a, 2, scan(a, 2)->Ok_0));
    assert(scan(b, 3) is Ok);
    assert(scan(b, 4) == step(b, 3, scan(b, 3)->Ok_0));
    if operand.len() == 0 {
        assert(scan(a, 3) is Err);
        assert(scan(b, 4) == scan(a, 3));
        scan_stays_refused(b, 4, b.len() as int);
        scan_stays_refused(a, 3, a.len() as int);
    } else {
        assert(scan(a, 3) is Ok);
        assert(scan(a, 4) == step(a, 3, scan(a, 3)->Ok_0));
        assert(scan(a, 4) is Ok && scan(b, 4) is Ok);
        let x = scan(b, 4)->Ok_0;
        let y = scan(a, 4)->Ok_0;
        assert(x.positionals =~= seq![3usize]);
        assert(y.positionals =~= seq![2usize]);
        assert(operand_moved(b, a, x, y, 3, 2, 4));
        assert forall|j: int| 0 <= j < rest.len() implies b[j + 4] == #[trigger] rest[j] && a[j + 4]
            == rest[j] by {}
        scans_keep_operand_moved(b, a, rest, rest.len() as int, 3, 2, 4);
        scan_is_within(b, b.len() as int);
        assert forall|j: int| 4 <= j < b.len() implies #[trigger] b[j] == a[j] by {
            assert(b[j] == rest[j - 4] && a[j] == rest[j - 4]);
        }
        if let (Ok(xs), Ok(ys)) = (scan(b, b.len() as int), scan(a, a.len() as int)) {
            finish_with_operand_moved(b, a, xs, ys, 3, 2, 4);
        }
    }
}

/// A subcommand's own value option may come before or after its
/// positional argument: `import --category C DIR` reads as `import DIR
/// --category C`, and `validate --language L FILE` as `validate FILE
/// --language L`, whatever the value, the positional, what follows and
/// the outcome (accepted or refused).
pub proof fn value_option_may_follow_the_positional(
    program: Seq<char>,
    sub: Seq<char>,
    option: Seq<char>,
    value: Seq<char>,
    operand: Seq<char>,
    rest: Seq<Seq<char>>,
)
    requires
        (sub == "import"@ && option == "--category"@) || (sub == "validate"@ && option
            == "--language"@),
        shape(value) == Shape::Value,
        shape(operand) == Shape::Value,
        rest.len() + 5 < usize::MAX,
    ensures
        spec_parse(seq![program, sub, option, value, operand] + rest) == spec_parse(
            seq![program, sub, operand, option, value] + rest,
        ),
{
    reveal_strlit("serve");
    reveal_strlit("validate");
    reveal_strlit("list-patterns");
    reveal_strlit("import");
    value_option_names_read();
    let b = seq![program, sub, option, value, operand] + rest;
    let a = seq![program, sub, operand, option, value] + rest;
    assert(b[1] == sub && b[2] == option && b[3] == value && b[4] == operand);
    assert(a[1] == sub && a[2] == operand && a[3] == option && a[4] == value);
    assert(shape(sub) == Shape::Value);
    assert(scan(b, 1) == Ok::<ScanView, Refusal>(initial_scan()));
    assert(scan(a, 1) == Ok::<ScanView, Refusal>(initial_scan()));
    assert(scan(b, 2) == step(b, 1, initial_scan()));
    assert(scan(a, 2) == step(a, 1, initial_scan()));
    assert(scan(b, 2) is Ok && scan(a, 2) == scan(b, 2));
    assert(scan(b, 3) == step(b, 2, scan(b, 2)->Ok_0));
    assert(scan(a, 3) == step(a, 2, scan(a, 2)->Ok_0));
    assert(scan(b, 3) is Ok);
    assert(scan(b, 4) == step(b, 3, scan(b, 3)->Ok_0));
    assert(scan(b, 4) is Ok);
    assert(scan(b, 5) == step(b, 4, scan(b, 4)->Ok_0));
    if operand.len() == 0 {
        assert(scan(a, 3) is Err);
        assert(scan(b, 5) == scan(a, 3));
        scan_stays_refused(b, 5, b.len() as int);
        scan_stays_refused(a, 3, a.len() as int);
    } else {
        assert(scan(a, 3) is Ok);
        assert(scan(a, 4) == step(a, 3, scan(a, 3)->Ok_0));
        assert(scan(a, 4) is Ok);
        assert(scan(a, 5) == step(a, 4, scan(a, 4)->Ok_0));
        assert(scan(a, 5) is Ok && scan(b, 5) is Ok);
        let x = scan(b, 5)->Ok_0;
        let y = scan(a, 5)->Ok_0;
        assert(x.positionals =~= seq![4usize]);
        assert(y.positionals =~= seq![2usize]);
        assert(operand_moved(b, a, x, y, 4, 2, 5));
        assert forall|j: int| 0 <= j < rest.len() implies b[j + 5] == #[trigger] rest[j] && a[j + 5]
            == rest[j] by {}
        scans_keep_operand_moved(b, a, rest, rest.len() as int, 4, 2, 5);
        scan_is_within(b, b.len() as int);
        assert forall|j: int| 5 <= j < b.len() implies #[trigger] b[j] == a[j] by {
            assert(b[j] == rest[j - 5] && a[j] == rest[j - 5]);
        }
        if let (Ok(xs), Ok(ys)) = (scan(b, b.len() as int), scan(a, a.len() as int)) {
            finish_with_operand_moved(b, a, xs, ys, 4, 2, 5);
        }
    }
}

/// `--db` is global: given right before the subcommand or right after it,
/// the command line reads the same, whatever follows (provided no later
/// `--db` is given); `serve` or `list-patterns` with a non-empty path and
/// nothing after is accepted with that path.
pub proof fn db_is_accepted_before_or_after_the_subcommand(
    program: Seq<char>,
    path: Seq<char>,
    sub: Seq<char>,
    rest: Seq<Seq<char>>,
)
    requires
        shape(path) == Shape::Value,
        subcommand_named(sub) is Some,
        rest.len() + 4 < usize::MAX,
        forall|j: int| 0 <= j < rest.len() ==> !names_db(#[trigger] rest[j]),
    ensures
        spec_parse(seq![program, "--db"@, path, sub] + rest) == spec_parse(
            seq![program, sub, "--db"@, path] + rest,
        ),
        rest.len() == 0 && path.len() > 0 && (subcommand_named(sub) == Some(SubcommandKind::Serve)
            || subcommand_named(sub) == Some(SubcommandKind::ListPatterns)) ==> (spec_parse(
            seq![program, "--db"@, path, sub] + rest,
        ) matches Ok(c) && c.db == Some(path)),
{
    reveal_strlit("--db");
    reveal_strlit("db");
    reveal_strlit("serve");
    reveal_strlit("validate");
    reveal_strlit("list-patterns");
    reveal_strlit("import");
    assert(shape(sub) == Shape::Value);
    let b = seq![program, "--db"@, path, sub] + rest;
    let a = seq![program, sub, "--db"@, path] + rest;
    let t = "--db"@;
    assert(t =~= seq!['-', '-', 'd', 'b']);
    assert(shape(t) == Shape::Long);
    assert(eq_from(t, 4) == 4);
    assert(eq_from(t, 3) == 4);
    assert(eq_from(t, 2) == 4);
    assert(t.subrange(2, 4) =~= "db"@);
    assert(long_name(t.subrange(2, 4)) == LongName::Db);
    assert(b[1] == t && b[2] == path && b[3] == sub);
    assert(a[1] == sub && a[2] == t && a[3] == path);
    assert(scan(b, 1) == Ok::<ScanView, Refusal>(initial_scan()));
    assert(scan(a, 1) == Ok::<ScanView, Refusal>(initial_scan()));
    assert(scan(b, 2) == step(b, 1, initial_scan()));
    assert(scan(a, 2) == step(a, 1, initial_scan()));
    assert(scan(b, 3) == step(b, 2, scan(b, 2)->Ok_0));
    assert(scan(a, 3) == step(a, 2, scan(a, 2)->Ok_0));
    if path.len() > 0 {
        assert(scan(b, 4) == step(b, 3, scan(b, 3)->Ok_0));
        assert(scan(a, 4) == step(a, 3, scan(a, 3)->Ok_0));
        assert forall|j: int| 0 <= j < rest.len() implies b[j + 4] == #[trigger] rest[j] && a[j + 4]
            == rest[j] by {}
        scans_keep_db_moved(b, a, rest, rest.len() as int);
        assert(b.len() == 4 + rest.len());
        scan_is_within(b, b.len() as int);
        match (scan(b, b.len() as int), scan(a, a.len() as int)) {
            (Ok(x), Ok(y)) => {
                assert(opt_slice_view(b, x.db_top) == Some(path));
                assert(opt_slice_view(a, y.db_sub) == Some(path));
                if let Some(l) = x.language {
                    assert(b[l.arg as int] == rest[l.arg - 4]);
                }
                if let Some(c) = x.category {
                    assert(b[c.arg as int] == rest[c.arg - 4]);
                }
                assert forall|k: int| 0 <= k < x.positionals.len() implies b[#[trigger] x.positionals[k] as int]
                    == a[x.positionals[k] as int] by {
                    assert(b[x.positionals[k] as int] == rest[x.positionals[k] - 4]);
                }
                assert(x.positionals.map_values(|p: usize| b[p as int]) =~= y.positionals.map_values(
                    |p: usize| a[p as int],
                ));
            },
            _ => {},
        }
    } else {
        assert(scan(b, 3) is Err);
        assert(scan(a, 4) == step(a, 3, scan(a, 3)->Ok_0));
        assert(scan(a, 4) == scan(b, 3));
        scan_stays_refused(b, 3, b.len() as int);
        scan_stays_refused(a, 4, a.len() as int);
    }
}

} // verus!
