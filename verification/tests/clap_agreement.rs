//! The command-line grammar of `norma::cli` read side by side with clap
//! itself, built with clap's builder API to the same definition as the
//! program's clap copy: both must accept and refuse the same command
//! lines, and agree on what an accepted one says.

use clap::builder::ValueParser;
use clap::{Arg, ArgAction, ArgMatches};
use norma::cli::{Cli, Command};
use std::path::PathBuf;

fn clap_norma() -> clap::Command {
    clap::Command::new("norma")
        .version("0.1.0")
        .subcommand_required(true)
        .arg_required_else_help(true)
        .arg(
            Arg::new("db")
                .long("db")
                .global(true)
                .value_name("PATH")
                .value_parser(ValueParser::path_buf())
                .action(ArgAction::Set),
        )
        .subcommand(clap::Command::new("serve"))
        .subcommand(
            clap::Command::new("validate")
                .arg(Arg::new("language").long("language").required(true).action(ArgAction::Set))
                .arg(Arg::new("json").long("json").action(ArgAction::SetTrue))
                .arg(Arg::new("fix").long("fix").action(ArgAction::SetTrue))
                .arg(
                    Arg::new("files")
                        .value_name("FILE")
                        .required(true)
                        .num_args(1..)
                        .value_parser(ValueParser::path_buf())
                        .action(ArgAction::Append),
                ),
        )
        .subcommand(clap::Command::new("list-patterns"))
        .subcommand(
            clap::Command::new("import")
                .arg(
                    Arg::new("dir")
                        .required(true)
                        .value_parser(ValueParser::path_buf())
                        .action(ArgAction::Set),
                )
                .arg(Arg::new("category").long("category").action(ArgAction::Set))
                .arg(Arg::new("json").long("json").action(ArgAction::SetTrue)),
        )
}

fn path(m: &ArgMatches, id: &str) -> Option<String> {
    m.get_one::<PathBuf>(id).map(|p| p.to_string_lossy().into_owned())
}

/// What clap makes of a command line, in the library's terms.
fn clap_reads(args: &[&str]) -> Option<Cli> {
    let m = clap_norma().try_get_matches_from(args).ok()?;
    let (name, sub) = m.subcommand()?;
    let db = path(sub, "db").or_else(|| path(&m, "db"));
    let command = match name {
        "serve" => Command::Serve,
        "list-patterns" => Command::ListPatterns,
        "validate" => Command::Validate {
            language: sub.get_one::<String>("language")?.clone(),
            json: sub.get_flag("json"),
            fix: sub.get_flag("fix"),
            files: sub
                .get_many::<PathBuf>("files")?
                .map(|p| p.to_string_lossy().into_owned())
                .collect(),
        },
        "import" => Command::Import {
            dir: path(sub, "dir")?,
            category: sub.get_one::<String>("category").cloned(),
            json: sub.get_flag("json"),
        },
        _ => return None,
    };
    Some(Cli { db, command })
}

const CASES: &[&[&str]] = &[
    &["norma"],
    &["norma", "serve"],
    &["norma", "list-patterns"],
    &["norma", "lint"],
    &["norma", "--help"],
    &["norma", "-h"],
    &["norma", "-V"],
    &["norma", "--version"],
    &["norma", "help"],
    &["norma", "--db", "a.db", "serve"],
    &["norma", "serve", "--db", "a.db"],
    &["norma", "--db=a.db", "list-patterns"],
    &["norma", "--db", "a.db", "serve", "--db", "b.db"],
    &["norma", "--db", "a.db", "--db", "b.db", "serve"],
    &["norma", "serve", "--db", "a.db", "--db", "b.db"],
    &["norma", "--db=", "serve"],
    &["norma", "serve", "--db"],
    &["norma", "serve", "extra"],
    &["norma", "serve", "--json"],
    &["norma", "serve", "--version"],
    &["norma", "validate", "--language", "rust", "a.rs"],
    &["norma", "validate", "--language=rust", "--json", "--fix", "a.rs", "b.rs"],
    &["norma", "validate", "a.rs", "--language", "rust", "b.rs"],
    &["norma", "validate", "--language", "rust"],
    &["norma", "validate", "a.rs"],
    &["norma", "validate", "--language"],
    &["norma", "validate", "--language", "--json", "a.rs"],
    &["norma", "validate", "--language", "rust", "--json", "--json", "a.rs"],
    &["norma", "validate", "--language", "a", "--language", "b", "x"],
    &["norma", "validate", "--language", "rust", "--fix=yes", "a.rs"],
    &["norma", "validate", "--language", "rust", "--", "--json", "-"],
    &["norma", "validate", "--language", "rust", "-"],
    &["norma", "validate", "--language", "rust", ""],
    &["norma", "validate", "--language", "", "a.rs"],
    &["norma", "validate", "--language", "rust", "-x", "a.rs"],
    &["norma", "validate", "--language", "rust", "--unknown", "a.rs"],
    &["norma", "validate", "--category", "c", "--language", "rust", "a.rs"],
    &["norma", "import", "rules"],
    &["norma", "import", "--category", "bulk", "--json", "rules"],
    &["norma", "import", "--category=", "rules"],
    &["norma", "import"],
    &["norma", "import", "a", "b"],
    &["norma", "import", ""],
    &["norma", "import", "--fix", "rules"],
    &["norma", "--json", "serve"],
    &["norma", "-x", "serve"],
];

#[test]
fn the_grammar_accepts_and_refuses_what_clap_does() {
    for args in CASES {
        let ours = Cli::try_parse_from(args).ok();
        let theirs = clap_reads(args);
        assert_eq!(ours, theirs, "the two readings of {args:?} differ");
    }
}
