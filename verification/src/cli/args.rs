//! The arguments of the command.

use crate::cli::command::{
    all_accepted, are_sound, flag_under, has_plain_name, help_page, help_text, is_accepted, is_bare,
    is_plain_word, is_positional, lemma_taken, only_defaults, option_views, read_line, read_options,
    taken, values_in, values_under, Accepted, AcceptedView, CliOption, CliWord, CommandWords,
    LineEnd, LineView, MatchedView, OptionAction, OptionView, ReadLine, WordView,
};
use crate::strings::{
    copy, digits_value, is_usize_text, lemma_number_is_read_back, nat_text, parse_usize, same,
    text_of, texts, unsigned_part,
};
use vstd::prelude::*;

verus! {

/// Test runner backend to use.
#[derive(Debug, Clone, Copy, PartialEq, Eq, Structural)]
pub enum Runner {
    /// No pytest required
    Native,
    /// Full pytest compatibility
    Pytest,
}

impl Default for Runner {
    fn default() -> (r: Self)
        ensures
            r == Runner::Pytest,
    {
        Runner::Pytest
    }
}

/// The backend of that name.
pub open spec fn runner_named(s: Seq<char>) -> Option<Runner> {
    if s == "native"@ {
        Some(Runner::Native)
    } else if s == "pytest"@ {
        Some(Runner::Pytest)
    } else {
        None
    }
}

impl Runner {
    /// The backend of that name.
    pub fn named(s: &str) -> (r: Option<Runner>)
        ensures
            r == runner_named(s@),
    {
        if same(s, "native") {
            Some(Runner::Native)
        } else if same(s, "pytest") {
            Some(Runner::Pytest)
        } else {
            None
        }
    }
}

/// Where to emit machine-readable cannot-expand records.
#[derive(Debug, PartialEq, Eq)]
pub enum CannotExpandReport {
    /// Print `rtest-cannot-expand:` lines on stdout (default).
    Stdout,
    /// Print `rtest-cannot-expand:` lines on stderr.
    Stderr,
    /// Do not emit machine-readable records (human warnings still print).
    Omit,
    /// Write records to this path, one `rtest-cannot-expand: <nodeid>` line per test.
    File(String),
}

/// View of a [`CannotExpandReport`].
pub ghost enum ReportView {
    Stdout,
    Stderr,
    Omit,
    File(Seq<char>),
}

/// The destination that a text names.
pub open spec fn report_named(s: Seq<char>) -> ReportView {
    if s == "stdout"@ || s == "-"@ {
        ReportView::Stdout
    } else if s == "stderr"@ {
        ReportView::Stderr
    } else if s == "none"@ || s == "off"@ {
        ReportView::Omit
    } else {
        ReportView::File(s)
    }
}

impl Default for CannotExpandReport {
    fn default() -> (r: Self)
        ensures
            r@ == ReportView::Stdout,
    {
        CannotExpandReport::Stdout
    }
}

impl CannotExpandReport {
    pub open spec fn view(&self) -> ReportView {
        match self {
            CannotExpandReport::Stdout => ReportView::Stdout,
            CannotExpandReport::Stderr => ReportView::Stderr,
            CannotExpandReport::Omit => ReportView::Omit,
            CannotExpandReport::File(path) => ReportView::File(path@),
        }
    }

    /// The destination that a text names.
    pub fn named(s: &str) -> (r: Self)
        ensures
            r@ == report_named(s@),
    {
        if same(s, "stdout") || same(s, "-") {
            CannotExpandReport::Stdout
        } else if same(s, "stderr") {
            CannotExpandReport::Stderr
        } else if same(s, "none") || same(s, "off") {
            CannotExpandReport::Omit
        } else {
            CannotExpandReport::File(copy(s))
        }
    }
}

impl std::str::FromStr for CannotExpandReport {
    type Err = String;

    /// Every text names a destination: what is no word for another one is the path of a file.
    fn from_str(s: &str) -> (r: Result<Self, String>)
        ensures
            r is Ok,
            r->Ok_0@ == report_named(s@),
    {
        Ok(CannotExpandReport::named(s))
    }
}

#[derive(Debug, Clone, Copy, PartialEq, Eq, Structural)]
pub enum NumProcesses {
    Auto,
    Logical,
    Count(usize),
}

/// How tests are distributed over workers.
#[derive(Debug, Clone, Copy, PartialEq, Eq, Structural)]
pub enum DistributionMode {
    Load,
    LoadScope,
    LoadFile,
    WorkSteal,
    No,
}

/// The distribution mode of that name.
pub open spec fn mode_named(s: Seq<char>) -> Option<DistributionMode> {
    if s == "load"@ {
        Some(DistributionMode::Load)
    } else if s == "loadscope"@ {
        Some(DistributionMode::LoadScope)
    } else if s == "loadfile"@ {
        Some(DistributionMode::LoadFile)
    } else if s == "worksteal"@ {
        Some(DistributionMode::WorkSteal)
    } else if s == "no"@ {
        Some(DistributionMode::No)
    } else {
        None
    }
}

impl DistributionMode {
    /// The distribution mode of that name.
    pub fn named(s: &str) -> (r: Option<DistributionMode>)
        ensures
            r == mode_named(s@),
    {
        if same(s, "load") {
            Some(DistributionMode::Load)
        } else if same(s, "loadscope") {
            Some(DistributionMode::LoadScope)
        } else if same(s, "loadfile") {
            Some(DistributionMode::LoadFile)
        } else if same(s, "worksteal") {
            Some(DistributionMode::WorkSteal)
        } else if same(s, "no") {
            Some(DistributionMode::No)
        } else {
            None
        }
    }
}

/// Command-line arguments.
#[derive(Debug)]
pub struct Args {
    /// Environment variables to set for pytest (e.g., 'KEY=VALUE')
    pub env: Vec<String>,
    /// Number of processes to run tests in parallel
    pub numprocesses: Option<String>,
    /// Maximum number of worker processes
    pub maxprocesses: Option<usize>,
    /// Distribution mode for parallel execution
    pub dist: String,
    /// Collect tests only, don't run them
    pub collect_only: bool,
    /// Emit list of files with uncertain test collection (parametrized tests that may differ from
    /// pytest)
    pub emit_uncertain_files: Option<String>,
    /// Mark ALL files with parametrized tests as uncertain (not just ones with complex patterns)
    pub all_parametrized_uncertain: bool,
    /// Where to write the list of files without parametrized tests
    pub split_simple_files: Option<String>,
    /// Where to write the list of files with parametrized tests
    pub split_param_files: Option<String>,
    /// Where to write the tests of the files with parametrized tests
    pub split_param_tests: Option<String>,
    /// Where to write machine-readable cannot-expand records (pytest-incompatible cases).
    ///
    /// `stdout` (default) prints `rtest-cannot-expand: <nodeid>` after collection warnings.
    /// `stderr` writes the same lines to stderr. A file path writes those lines to the file
    /// and leaves collect-only stdout unchanged. `none` omits the records (warnings remain).
    pub cannot_expand_report: CannotExpandReport,
    /// Test runner backend
    pub runner: Runner,
    /// Test files or directories to run
    pub files: Vec<String>,
}

/// View of [`Args`].
pub ghost struct ArgsView {
    pub env: Seq<Seq<char>>,
    pub numprocesses: Option<Seq<char>>,
    pub maxprocesses: Option<usize>,
    pub dist: Seq<char>,
    pub collect_only: bool,
    pub emit_uncertain_files: Option<Seq<char>>,
    pub all_parametrized_uncertain: bool,
    pub split_simple_files: Option<Seq<char>>,
    pub split_param_files: Option<Seq<char>>,
    pub split_param_tests: Option<Seq<char>>,
    pub cannot_expand_report: ReportView,
    pub runner: Runner,
    pub files: Seq<Seq<char>>,
}

/// The words of the command.
pub open spec fn command_words() -> CommandWords {
    CommandWords { name: "rtest"@, version: "0.1.0"@, about: "A Python test runner"@ }
}

/// The options of the command.
pub open spec fn command_options() -> Seq<OptionView> {
    seq![
        OptionView {
            name: "env"@,
            long: Some("env"@),
            short: Some('e'),
            action: OptionAction::Many,
            default: None,
            accepted: AcceptedView::AnyText,
            value_name: Some("ENV"@),
            help: "Environment variables to set for pytest (e.g., 'KEY=VALUE')"@,
            long_help: None,
        },
        OptionView {
            name: "numprocesses"@,
            long: Some("numprocesses"@),
            short: Some('n'),
            action: OptionAction::Single,
            default: None,
            accepted: AcceptedView::AnyText,
            value_name: Some("NUMPROCESSES"@),
            help: "Number of processes to run tests in parallel"@,
            long_help: None,
        },
        OptionView {
            name: "maxprocesses"@,
            long: Some("maxprocesses"@),
            short: None,
            action: OptionAction::Single,
            default: None,
            accepted: AcceptedView::Number,
            value_name: Some("MAXPROCESSES"@),
            help: "Maximum number of worker processes"@,
            long_help: None,
        },
        OptionView {
            name: "dist"@,
            long: Some("dist"@),
            short: None,
            action: OptionAction::Single,
            default: Some("load"@),
            accepted: AcceptedView::AnyText,
            value_name: Some("DIST"@),
            help: "Distribution mode for parallel execution"@,
            long_help: None,
        },
        OptionView {
            name: "collect-only"@,
            long: Some("collect-only"@),
            short: None,
            action: OptionAction::Flag,
            default: None,
            accepted: AcceptedView::AnyText,
            value_name: None,
            help: "Collect tests only, don't run them"@,
            long_help: None,
        },
        OptionView {
            name: "emit-uncertain-files"@,
            long: Some("emit-uncertain-files"@),
            short: None,
            action: OptionAction::Single,
            default: None,
            accepted: AcceptedView::AnyText,
            value_name: Some("EMIT_UNCERTAIN_FILES"@),
            help: "Emit list of files with uncertain test collection (parametrized tests that may differ from pytest)"@,
            long_help: None,
        },
        OptionView {
            name: "all-parametrized-uncertain"@,
            long: Some("all-parametrized-uncertain"@),
            short: None,
            action: OptionAction::Flag,
            default: None,
            accepted: AcceptedView::AnyText,
            value_name: None,
            help: "Mark ALL files with parametrized tests as uncertain (not just ones with complex patterns)"@,
            long_help: None,
        },
        OptionView {
            name: "split-simple-files"@,
            long: Some("split-simple-files"@),
            short: None,
            action: OptionAction::Single,
            default: None,
            accepted: AcceptedView::AnyText,
            value_name: Some("SPLIT_SIMPLE_FILES"@),
            help: "Where to write the list of files without parametrized tests"@,
            long_help: None,
        },
        OptionView {
            name: "split-param-files"@,
            long: Some("split-param-files"@),
            short: None,
            action: OptionAction::Single,
            default: None,
            accepted: AcceptedView::AnyText,
            value_name: Some("SPLIT_PARAM_FILES"@),
            help: "Where to write the list of files with parametrized tests"@,
            long_help: None,
        },
        OptionView {
            name: "split-param-tests"@,
            long: Some("split-param-tests"@),
            short: None,
            action: OptionAction::Single,
            default: None,
            accepted: AcceptedView::AnyText,
            value_name: Some("SPLIT_PARAM_TESTS"@),
            help: "Where to write the tests of the files with parametrized tests"@,
            long_help: None,
        },
        OptionView {
            name: "cannot-expand-report"@,
            long: Some("cannot-expand-report"@),
            short: None,
            action: OptionAction::Single,
            default: Some("stdout"@),
            accepted: AcceptedView::AnyText,
            value_name: Some("DEST"@),
            help: "Where to write machine-readable cannot-expand records (pytest-incompatible cases)"@,
            long_help: Some(
                "Where to write machine-readable cannot-expand records (pytest-incompatible cases).\n\n`stdout` (default) prints `rtest-cannot-expand: <nodeid>` after collection warnings. `stderr` writes the same lines to stderr. A file path writes those lines to the file and leaves collect-only stdout unchanged. `none` omits the records (warnings remain)."@,
            ),
        },
        OptionView {
            name: "runner"@,
            long: Some("runner"@),
            short: None,
            action: OptionAction::Single,
            default: Some("pytest"@),
            accepted: AcceptedView::Either(
                WordView { text: "native"@, help: "No pytest required"@ },
                WordView { text: "pytest"@, help: "Full pytest compatibility"@ },
            ),
            value_name: Some("RUNNER"@),
            help: "Test runner backend"@,
            long_help: None,
        },
        OptionView {
            name: "files"@,
            long: None,
            short: None,
            action: OptionAction::Many,
            default: None,
            accepted: AcceptedView::AnyText,
            value_name: Some("FILES"@),
            help: "Test files or directories to run"@,
            long_help: None,
        },
    ]
}

fn options() -> (r: Vec<CliOption>)
    ensures
        option_views(r@) == command_options(),
{
    let mut r: Vec<CliOption> = Vec::new();
    r.push(
        CliOption {
            name: "env",
            long: Some("env"),
            short: Some('e'),
            action: OptionAction::Many,
            default: None,
            accepted: Accepted::AnyText,
            value_name: Some("ENV"),
            help: "Environment variables to set for pytest (e.g., 'KEY=VALUE')",
            long_help: None,
        },
    );
    r.push(
        CliOption {
            name: "numprocesses",
            long: Some("numprocesses"),
            short: Some('n'),
            action: OptionAction::Single,
            default: None,
            accepted: Accepted::AnyText,
            value_name: Some("NUMPROCESSES"),
            help: "Number of processes to run tests in parallel",
            long_help: None,
        },
    );
    r.push(
        CliOption {
            name: "maxprocesses",
            long: Some("maxprocesses"),
            short: None,
            action: OptionAction::Single,
            default: None,
            accepted: Accepted::Number,
            value_name: Some("MAXPROCESSES"),
            help: "Maximum number of worker processes",
            long_help: None,
        },
    );
    r.push(
        CliOption {
            name: "dist",
            long: Some("dist"),
            short: None,
            action: OptionAction::Single,
            default: Some("load"),
            accepted: Accepted::AnyText,
            value_name: Some("DIST"),
            help: "Distribution mode for parallel execution",
            long_help: None,
        },
    );
    r.push(
        CliOption {
            name: "collect-only",
            long: Some("collect-only"),
            short: None,
            action: OptionAction::Flag,
            default: None,
            accepted: Accepted::AnyText,
            value_name: None,
            help: "Collect tests only, don't run them",
            long_help: None,
        },
    );
    r.push(
        CliOption {
            name: "emit-uncertain-files",
            long: Some("emit-uncertain-files"),
            short: None,
            action: OptionAction::Single,
            default: None,
            accepted: Accepted::AnyText,
            value_name: Some("EMIT_UNCERTAIN_FILES"),
            help: "Emit list of files with uncertain test collection (parametrized tests that may differ from pytest)",
            long_help: None,
        },
    );
    r.push(
        CliOption {
            name: "all-parametrized-uncertain",
            long: Some("all-parametrized-uncertain"),
            short: None,
            action: OptionAction::Flag,
            default: None,
            accepted: Accepted::AnyText,
            value_name: None,
            help: "Mark ALL files with parametrized tests as uncertain (not just ones with complex patterns)",
            long_help: None,
        },
    );
    r.push(
        CliOption {
            name: "split-simple-files",
            long: Some("split-simple-files"),
            short: None,
            action: OptionAction::Single,
            default: None,
            accepted: Accepted::AnyText,
            value_name: Some("SPLIT_SIMPLE_FILES"),
            help: "Where to write the list of files without parametrized tests",
            long_help: None,
        },
    );
    r.push(
        CliOption {
            name: "split-param-files",
            long: Some("split-param-files"),
            short: None,
            action: OptionAction::Single,
            default: None,
            accepted: Accepted::AnyText,
            value_name: Some("SPLIT_PARAM_FILES"),
            help: "Where to write the list of files with parametrized tests",
            long_help: None,
        },
    );
    r.push(
        CliOption {
            name: "split-param-tests",
            long: Some("split-param-tests"),
            short: None,
            action: OptionAction::Single,
            default: None,
            accepted: Accepted::AnyText,
            value_name: Some("SPLIT_PARAM_TESTS"),
            help: "Where to write the tests of the files with parametrized tests",
            long_help: None,
        },
    );
    r.push(
        CliOption {
            name: "cannot-expand-report",
            long: Some("cannot-expand-report"),
            short: None,
            action: OptionAction::Single,
            default: Some("stdout"),
            accepted: Accepted::AnyText,
            value_name: Some("DEST"),
            help: "Where to write machine-readable cannot-expand records (pytest-incompatible cases)",
            long_help: Some(
                "Where to write machine-readable cannot-expand records (pytest-incompatible cases).\n\n`stdout` (default) prints `rtest-cannot-expand: <nodeid>` after collection warnings. `stderr` writes the same lines to stderr. A file path writes those lines to the file and leaves collect-only stdout unchanged. `none` omits the records (warnings remain).",
            ),
        },
    );
    r.push(
        CliOption {
            name: "runner",
            long: Some("runner"),
            short: None,
            action: OptionAction::Single,
            default: Some("pytest"),
            accepted: Accepted::Either(
                CliWord { text: "native", help: "No pytest required" },
                CliWord { text: "pytest", help: "Full pytest compatibility" },
            ),
            value_name: Some("RUNNER"),
            help: "Test runner backend",
            long_help: None,
        },
    );
    r.push(
        CliOption {
            name: "files",
            long: None,
            short: None,
            action: OptionAction::Many,
            default: None,
            accepted: Accepted::AnyText,
            value_name: Some("FILES"),
            help: "Test files or directories to run",
            long_help: None,
        },
    );
    assert(option_views(r@) =~= command_options());
    r
}

/// The options of the command are told apart.
proof fn lemma_options_are_sound()
    ensures
        are_sound(command_options()),
{
    reveal_strlit("env");
    reveal_strlit("numprocesses");
    reveal_strlit("maxprocesses");
    reveal_strlit("dist");
    reveal_strlit("collect-only");
    reveal_strlit("emit-uncertain-files");
    reveal_strlit("all-parametrized-uncertain");
    reveal_strlit("split-simple-files");
    reveal_strlit("split-param-files");
    reveal_strlit("split-param-tests");
    reveal_strlit("cannot-expand-report");
    reveal_strlit("runner");
    reveal_strlit("files");
    reveal_strlit("help");
    reveal_strlit("version");
    assert("numprocesses"@[0] != "maxprocesses"@[0]);
    assert("numprocesses"@[0] != "collect-only"@[0]);
    assert("maxprocesses"@[0] != "collect-only"@[0]);
    assert("emit-uncertain-files"@[0] != "cannot-expand-report"@[0]);
    assert("split-param-files"@[12] != "split-param-tests"@[12]);
    assert("dist"@[0] != "help"@[0]);
    assert("env"@[0] == 'e' && "numprocesses"@[0] == 'n' && "maxprocesses"@[0] == 'm');
    assert("dist"@[0] == 'd' && "collect-only"@[0] == 'c' && "emit-uncertain-files"@[0] == 'e');
    assert("all-parametrized-uncertain"@[0] == 'a' && "split-simple-files"@[0] == 's');
    assert("split-param-files"@[0] == 's' && "split-param-tests"@[0] == 's');
    assert("cannot-expand-report"@[0] == 'c' && "runner"@[0] == 'r');
    let all = command_options();
    assert(all.len() == 13);
    assert("env"@.len() == 3 && "help"@.len() == 4 && "files"@.len() == 5 && "runner"@.len() == 6);
    assert("version"@.len() == 7 && "dist"@.len() == 4);
    assert("numprocesses"@.len() == 12 && "maxprocesses"@.len() == 12 && "collect-only"@.len() == 12);
    assert("emit-uncertain-files"@.len() == 20 && "cannot-expand-report"@.len() == 20);
    assert("all-parametrized-uncertain"@.len() == 26 && "split-simple-files"@.len() == 18);
    assert("split-param-files"@.len() == 17 && "split-param-tests"@.len() == 17);
    assert(all[0].name == "env"@ && all[1].name == "numprocesses"@ && all[2].name == "maxprocesses"@);
    assert(all[3].name == "dist"@ && all[4].name == "collect-only"@);
    assert(all[5].name == "emit-uncertain-files"@);
    assert(all[6].name == "all-parametrized-uncertain"@);
    assert(all[7].name == "split-simple-files"@);
    assert(all[8].name == "split-param-files"@);
    assert(all[9].name == "split-param-tests"@);
    assert(all[10].name == "cannot-expand-report"@);
    assert(all[11].name == "runner"@ && all[12].name == "files"@);
    assert(forall|i: int| 0 <= i < 12 ==> (#[trigger] all[i]).long == Some(all[i].name));
    assert forall|i: int, j: int| #![trigger all[i], all[j]] 0 <= i < j < all.len() implies {
        &&& all[i].name != all[j].name
        &&& all[i].long is Some ==> all[i].long != all[j].long
        &&& all[i].short is Some ==> all[i].short != all[j].short
        &&& !is_positional(all[i])
    } by {
        assert(i == 0 || i == 1 || i == 2 || i == 3 || i == 4 || i == 5 || i == 6 || i == 7 || i == 8
            || i == 9 || i == 10 || i == 11 || i == 12);
        assert(j == 0 || j == 1 || j == 2 || j == 3 || j == 4 || j == 5 || j == 6 || j == 7 || j == 8
            || j == 9 || j == 10 || j == 11 || j == 12);
    }
    assert forall|i: int| 0 <= i < all.len() implies {
        &&& (#[trigger] all[i]).name != "help"@ && all[i].name != "version"@
        &&& all[i].long != Some("help"@) && all[i].long != Some("version"@)
        &&& all[i].short != Some('h') && all[i].short != Some('V')
        &&& all[i].action is Flag ==> all[i].default is None && !is_positional(all[i])
            && all[i].accepted is AnyText
        &&& all[i].default matches Some(text) ==> is_accepted(all[i].accepted, text)
        &&& is_bare(all[i])
    } by {
        assert(i == 0 || i == 1 || i == 2 || i == 3 || i == 4 || i == 5 || i == 6 || i == 7 || i == 8
            || i == 9 || i == 10 || i == 11 || i == 12);
    }
}

/// The command's own name is plain.
pub proof fn lemma_name_is_plain()
    ensures
        is_plain_word(command_words().name),
{
    reveal_strlit("rtest");
    let name = "rtest"@;
    assert(name =~= seq!['r', 't', 'e', 's', 't']);
}

/// The last of the values, if there are any.
pub open spec fn last_value(values: Seq<Seq<char>>) -> Option<Seq<char>> {
    if values.len() == 0 {
        None
    } else {
        Some(values.last())
    }
}

fn last_of(values: Vec<String>) -> (r: Option<String>)
    ensures
        text_of(r) == last_value(texts(values@)),
{
    let n = values.len();
    if n == 0 {
        None
    } else {
        assert(texts(values@).last() == values@[n - 1]@);
        Some(copy(values[n - 1].as_str()))
    }
}

/// The value, or the default where there is none.
pub open spec fn value_or(value: Option<Seq<char>>, default: Seq<char>) -> Seq<char> {
    match value {
        Some(text) => text,
        None => default,
    }
}

fn text_or(value: Option<String>, default: &str) -> (r: String)
    ensures
        r@ == value_or(text_of(value), default@),
{
    match value {
        Some(text) => text,
        None => copy(default),
    }
}

/// The arguments that a command line gave, if its values are such as the options take.
pub open spec fn args_of(m: LineView) -> Option<ArgsView> {
    let max = last_value(values_under(m, "maxprocesses"@));
    let runner = value_or(last_value(values_under(m, "runner"@)), "pytest"@);
    if max is Some && !is_usize_text(max->0) {
        None
    } else if runner_named(runner) is None {
        None
    } else {
        Some(
            ArgsView {
                env: values_under(m, "env"@),
                numprocesses: last_value(values_under(m, "numprocesses"@)),
                maxprocesses: match max {
                    Some(text) => Some(digits_value(unsigned_part(text)) as usize),
                    None => None,
                },
                dist: value_or(last_value(values_under(m, "dist"@)), "load"@),
                collect_only: flag_under(m, "collect-only"@),
                emit_uncertain_files: last_value(values_under(m, "emit-uncertain-files"@)),
                all_parametrized_uncertain: flag_under(m, "all-parametrized-uncertain"@),
                split_simple_files: last_value(values_under(m, "split-simple-files"@)),
                split_param_files: last_value(values_under(m, "split-param-files"@)),
                split_param_tests: last_value(values_under(m, "split-param-tests"@)),
                cannot_expand_report: report_named(
                    value_or(last_value(values_under(m, "cannot-expand-report"@)), "stdout"@),
                ),
                runner: runner_named(runner)->0,
                files: values_under(m, "files"@),
            },
        )
    }
}

/// How many processes a text asks for: as many as there are cores, or a number.
pub open spec fn processes_named(s: Seq<char>) -> Result<NumProcesses, Seq<char>> {
    if s == "auto"@ {
        Ok(NumProcesses::Auto)
    } else if s == "logical"@ {
        Ok(NumProcesses::Logical)
    } else if is_usize_text(s) {
        Ok(NumProcesses::Count(digits_value(unsigned_part(s)) as usize))
    } else {
        Err("Invalid number: "@ + s)
    }
}

/// How many workers are used: one where nothing is asked for, never more than the maximum and never
/// fewer than one.
pub open spec fn workers(
    wanted: Option<NumProcesses>,
    max: Option<usize>,
    cores: usize,
) -> nat {
    let count: nat = match wanted {
        None => 1,
        Some(NumProcesses::Auto) => cores as nat,
        Some(NumProcesses::Logical) => cores as nat,
        Some(NumProcesses::Count(n)) => n as nat,
    };
    let limited = match max {
        Some(m) if m < count => m as nat,
        _ => count,
    };
    if limited == 0 {
        1
    } else {
        limited
    }
}

/// How many workers are used, on a machine with that many cores.
pub fn determine_worker_count(
    num_processes: Option<NumProcesses>,
    maxprocesses: Option<usize>,
    cores: usize,
) -> (r: usize)
    ensures
        r == workers(num_processes, maxprocesses, cores),
{
    let count: usize = match num_processes {
        None => 1,
        Some(NumProcesses::Auto) => cores,
        Some(NumProcesses::Logical) => cores,
        Some(NumProcesses::Count(n)) => n,
    };
    let limited: usize = match maxprocesses {
        Some(m) => if m < count {
            m
        } else {
            count
        },
        None => count,
    };
    if limited == 0 {
        1
    } else {
        limited
    }
}

/// The arguments of a command line without any.
pub open spec fn default_args() -> ArgsView {
    ArgsView {
        env: seq![],
        numprocesses: None,
        maxprocesses: None,
        dist: "load"@,
        collect_only: false,
        emit_uncertain_files: None,
        all_parametrized_uncertain: false,
        split_simple_files: None,
        split_param_files: None,
        split_param_tests: None,
        cannot_expand_report: ReportView::Stdout,
        runner: Runner::Pytest,
        files: seq![],
    }
}

proof fn lemma_places()
    ensures
        ({
            let all = command_options();
            &&& all.len() == 13
            &&& all[0].name == "env"@
            &&& all[1].name == "numprocesses"@
            &&& all[2].name == "maxprocesses"@
            &&& all[3].name == "dist"@
            &&& all[4].name == "collect-only"@
            &&& all[5].name == "emit-uncertain-files"@
            &&& all[6].name == "all-parametrized-uncertain"@
            &&& all[7].name == "split-simple-files"@
            &&& all[8].name == "split-param-files"@
            &&& all[9].name == "split-param-tests"@
            &&& all[10].name == "cannot-expand-report"@
            &&& all[11].name == "runner"@
            &&& all[12].name == "files"@
        }),
{
}

/// Values that the options take are read.
proof fn lemma_accepted_is_read(m: MatchedView)
    requires
        all_accepted(command_options(), m),
    ensures
        args_of(taken(command_options(), m)) is Some,
{
    let all = command_options();
    lemma_places();
    lemma_taken(all, m, 2);
    lemma_taken(all, m, 11);
    let max = values_in(m, "maxprocesses"@);
    let runner = values_in(m, "runner"@);
    if max.len() > 0 {
        assert(is_accepted(all[2].accepted, values_in(m, all[2].name)[max.len() - 1]));
    }
    if runner.len() > 0 {
        assert(is_accepted(all[11].accepted, values_in(m, all[11].name)[runner.len() - 1]));
    }
}

proof fn lemma_defaults(m: MatchedView)
    requires
        only_defaults(command_options(), m),
    ensures
        args_of(taken(command_options(), m)) == Some(default_args()),
{
    let all = command_options();
    reveal_strlit("native");
    reveal_strlit("pytest");
    assert("native"@[0] != "pytest"@[0]);
    lemma_places();
    lemma_taken(all, m, 0);
    lemma_taken(all, m, 1);
    lemma_taken(all, m, 2);
    lemma_taken(all, m, 3);
    lemma_taken(all, m, 4);
    lemma_taken(all, m, 5);
    lemma_taken(all, m, 6);
    lemma_taken(all, m, 7);
    lemma_taken(all, m, 8);
    lemma_taken(all, m, 9);
    lemma_taken(all, m, 10);
    lemma_taken(all, m, 11);
    lemma_taken(all, m, 12);
    assert(values_in(m, "dist"@) == seq!["load"@]);
    assert(values_in(m, "cannot-expand-report"@) == seq!["stdout"@]);
    assert(values_in(m, "runner"@) == seq!["pytest"@]);
    assert(seq!["load"@].last() == "load"@);
    assert(seq!["stdout"@].last() == "stdout"@);
    assert(seq!["pytest"@].last() == "pytest"@);
}

impl Args {
    pub open spec fn view(&self) -> ArgsView {
        ArgsView {
            env: texts(self.env@),
            numprocesses: text_of(self.numprocesses),
            maxprocesses: self.maxprocesses,
            dist: self.dist@,
            collect_only: self.collect_only,
            emit_uncertain_files: text_of(self.emit_uncertain_files),
            all_parametrized_uncertain: self.all_parametrized_uncertain,
            split_simple_files: text_of(self.split_simple_files),
            split_param_files: text_of(self.split_param_files),
            split_param_tests: text_of(self.split_param_tests),
            cannot_expand_report: self.cannot_expand_report@,
            runner: self.runner,
            files: texts(self.files@),
        }
    }

    /// The arguments of a command line that was read, if its values are such as the options take.
    pub fn from_line(line: &ReadLine) -> (r: Option<Args>)
        ensures
            match r {
                Some(args) => args_of(line@) == Some(args@),
                None => args_of(line@) is None,
            },
    {
        let maxprocesses = match last_of(line.values("maxprocesses")) {
            None => None,
            Some(text) => match parse_usize(text.as_str()) {
                Some(n) => Some(n),
                None => {
                    return None;
                },
            },
        };
        let runner_text = text_or(last_of(line.values("runner")), "pytest");
        let runner = match Runner::named(runner_text.as_str()) {
            Some(runner) => runner,
            None => {
                return None;
            },
        };
        let report = text_or(last_of(line.values("cannot-expand-report")), "stdout");
        Some(
            Args {
                env: line.values("env"),
                numprocesses: last_of(line.values("numprocesses")),
                maxprocesses,
                dist: text_or(last_of(line.values("dist")), "load"),
                collect_only: line.flag("collect-only"),
                emit_uncertain_files: last_of(line.values("emit-uncertain-files")),
                all_parametrized_uncertain: line.flag("all-parametrized-uncertain"),
                split_simple_files: last_of(line.values("split-simple-files")),
                split_param_files: last_of(line.values("split-param-files")),
                split_param_tests: last_of(line.values("split-param-tests")),
                cannot_expand_report: CannotExpandReport::named(report.as_str()),
                runner,
                files: line.values("files"),
            },
        )
    }

    /// Reads a command line, whose first element is the name of the program. Only what messages say
    /// depends on that name.
    pub fn parse_from(line: &[String]) -> (r: Result<Args, LineEnd>)
        ensures
            has_plain_name(texts(line@)) ==> match read_line(
                command_words(),
                command_options(),
                texts(line@),
            ) {
                Err(end) => r is Err && r->Err_0@ == end,
                Ok(m) => r is Ok && args_of(taken(command_options(), m)) == Some(r->Ok_0@),
            },
            line@.len() > 0 ==> match read_line(
                command_words(),
                command_options(),
                texts(line@).update(0, command_words().name),
            ) {
                Err(end) => {
                    &&& r is Err
                    &&& r->Err_0.to_stderr == end.to_stderr
                    &&& r->Err_0.exit_code == end.exit_code
                },
                Ok(m) => r is Ok && args_of(taken(command_options(), m)) == Some(r->Ok_0@),
            },
            line@.len() == 1 ==> r is Ok && r->Ok_0@ == default_args(),
    {
        proof {
            lemma_options_are_sound();
            lemma_name_is_plain();
        }
        let options = options();
        let found = read_options(
            "rtest",
            "0.1.0",
            "A Python test runner",
            options.as_slice(),
            line,
        )?;
        let args = Args::from_line(&found);
        proof {
            let all = command_options();
            let m = choose|m: MatchedView|
                {
                    &&& found@ == taken(all, m)
                    &&& #[trigger] all_accepted(all, m)
                    &&& line@.len() == 1 ==> only_defaults(all, m)
                };
            lemma_accepted_is_read(m);
            if line@.len() == 1 {
                lemma_defaults(m);
            }
        }
        Ok(args.unwrap())
    }

    /// The help text of the command.
    pub fn render_help() -> (r: String)
        ensures
            r@ == help_page(command_words(), command_options()),
    {
        proof {
            lemma_options_are_sound();
        }
        let options = options();
        help_text("rtest", "0.1.0", "A Python test runner", options.as_slice())
    }

    /// How many processes are asked for.
    pub fn get_num_processes(&self) -> (r: Result<Option<NumProcesses>, String>)
        ensures
            match (r, self@.numprocesses) {
                (Ok(None), None) => true,
                (Ok(Some(n)), Some(text)) => processes_named(text) == Ok::<
                    NumProcesses,
                    Seq<char>,
                >(n),
                (Err(message), Some(text)) => processes_named(text) == Err::<
                    NumProcesses,
                    Seq<char>,
                >(message@),
                _ => false,
            },
    {
        match &self.numprocesses {
            None => Ok(None),
            Some(s) => {
                if same(s.as_str(), "auto") {
                    Ok(Some(NumProcesses::Auto))
                } else if same(s.as_str(), "logical") {
                    Ok(Some(NumProcesses::Logical))
                } else {
                    match parse_usize(s.as_str()) {
                        Some(n) => Ok(Some(NumProcesses::Count(n))),
                        None => {
                            let mut message = copy("Invalid number: ");
                            message.append(s.as_str());
                            Err(message)
                        },
                    }
                }
            },
        }
    }

    /// Whether the distribution mode is one of those that there are.
    pub fn validate_dist(&self) -> (r: Result<(), String>)
        ensures
            match r {
                Ok(()) => mode_named(self@.dist) is Some,
                Err(message) => mode_named(self@.dist) is None && message@
                    == "Invalid distribution mode: "@ + self@.dist,
            },
    {
        match DistributionMode::named(self.dist.as_str()) {
            Some(_) => Ok(()),
            None => {
                let mut message = copy("Invalid distribution mode: ");
                message.append(self.dist.as_str());
                Err(message)
            },
        }
    }
}

/// There is always a worker, and there are never more than the maximum, unless that is zero.
pub proof fn lemma_workers_are_bounded(
    wanted: Option<NumProcesses>,
    max: Option<usize>,
    cores: usize,
)
    ensures
        workers(wanted, max, cores) >= 1,
        max matches Some(m) ==> m > 0 ==> workers(wanted, max, cores) <= m,
{
}

/// The last of the texts, or nothing.
pub open spec fn final_one(values: Seq<Seq<char>>) -> Option<Seq<char>> {
    if values.len() > 0 {
        Some(values[values.len() - 1])
    } else {
        None
    }
}

/// Each argument is what the line gives for its option: all values of `--env` and the files, of
/// other options the last value, and of flags whether they are set.
pub proof fn lemma_arguments_are_those_of_the_line(m: MatchedView)
    requires
        all_accepted(command_options(), m),
    ensures
        args_of(taken(command_options(), m)) is Some,
        ({
            let args = args_of(taken(command_options(), m))->0;
            let given = |name: Seq<char>| values_in(m, name);
            &&& args.env == given("env"@)
            &&& args.files == given("files"@)
            &&& args.numprocesses == final_one(given("numprocesses"@))
            &&& args.emit_uncertain_files == final_one(given("emit-uncertain-files"@))
            &&& args.split_simple_files == final_one(given("split-simple-files"@))
            &&& args.split_param_files == final_one(given("split-param-files"@))
            &&& args.split_param_tests == final_one(given("split-param-tests"@))
            &&& args.collect_only == m.flags.contains("collect-only"@)
            &&& args.all_parametrized_uncertain == m.flags.contains("all-parametrized-uncertain"@)
            &&& given("dist"@).len() > 0 ==> Some(args.dist) == final_one(given("dist"@))
            &&& given("maxprocesses"@).len() == 0 ==> args.maxprocesses is None
            &&& forall|n: usize|
                final_one(given("maxprocesses"@)) == Some(#[trigger] nat_text(n as nat))
                    ==> args.maxprocesses == Some(n)
            &&& final_one(given("runner"@)) == Some("native"@) ==> args.runner == Runner::Native
            &&& final_one(given("runner"@)) == Some("pytest"@) ==> args.runner == Runner::Pytest
            &&& forall|word: Seq<char>|
                final_one(given("cannot-expand-report"@)) == Some(word)
                    ==> args.cannot_expand_report == #[trigger] report_named(word)
        }),
{
    let all = command_options();
    lemma_accepted_is_read(m);
    lemma_places();
    lemma_taken(all, m, 0);
    lemma_taken(all, m, 1);
    lemma_taken(all, m, 2);
    lemma_taken(all, m, 3);
    lemma_taken(all, m, 4);
    lemma_taken(all, m, 5);
    lemma_taken(all, m, 6);
    lemma_taken(all, m, 7);
    lemma_taken(all, m, 8);
    lemma_taken(all, m, 9);
    lemma_taken(all, m, 10);
    lemma_taken(all, m, 11);
    lemma_taken(all, m, 12);
    reveal_strlit("native");
    reveal_strlit("pytest");
    assert("native"@[0] != "pytest"@[0]);
    let max = values_in(m, "maxprocesses"@);
    assert forall|n: usize| final_one(max) == Some(#[trigger] nat_text(n as nat)) implies args_of(
        taken(all, m),
    )->0.maxprocesses == Some(n) by {
        lemma_number_is_read_back(n);
    }
}

/// The words for standard output and error output, and for no records, name these; any other text
/// is a file's path.
pub proof fn lemma_reports_are_named(s: Seq<char>)
    ensures
        report_named("stdout"@) == ReportView::Stdout,
        report_named("-"@) == ReportView::Stdout,
        report_named("stderr"@) == ReportView::Stderr,
        report_named("none"@) == ReportView::Omit,
        report_named("off"@) == ReportView::Omit,
        s != "stdout"@ && s != "-"@ && s != "stderr"@ && s != "none"@ && s != "off"@
            ==> report_named(s) == ReportView::File(s),
{
    reveal_strlit("stdout");
    reveal_strlit("-");
    reveal_strlit("stderr");
    reveal_strlit("none");
    reveal_strlit("off");
    assert("stdout"@.len() == 6 && "stderr"@.len() == 6 && "none"@.len() == 4 && "off"@.len() == 3);
    assert("-"@.len() == 1);
    assert("stdout"@[3] == 'o' && "stderr"@[3] == 'e');
}

/// The five modes of distribution have their names, and nothing else names a mode. So for the two
/// backends.
pub proof fn lemma_modes_are_named(s: Seq<char>)
    ensures
        mode_named("load"@) == Some(DistributionMode::Load),
        mode_named("loadscope"@) == Some(DistributionMode::LoadScope),
        mode_named("loadfile"@) == Some(DistributionMode::LoadFile),
        mode_named("worksteal"@) == Some(DistributionMode::WorkSteal),
        mode_named("no"@) == Some(DistributionMode::No),
        mode_named(s) is Some ==> s == "load"@ || s == "loadscope"@ || s == "loadfile"@ || s
            == "worksteal"@ || s == "no"@,
        runner_named("native"@) == Some(Runner::Native),
        runner_named("pytest"@) == Some(Runner::Pytest),
        runner_named(s) is Some ==> s == "native"@ || s == "pytest"@,
{
    reveal_strlit("load");
    reveal_strlit("loadscope");
    reveal_strlit("loadfile");
    reveal_strlit("worksteal");
    reveal_strlit("no");
    reveal_strlit("native");
    reveal_strlit("pytest");
    assert("load"@.len() == 4 && "loadscope"@.len() == 9 && "loadfile"@.len() == 8);
    assert("worksteal"@.len() == 9 && "no"@.len() == 2);
    assert("loadscope"@[0] == 'l' && "worksteal"@[0] == 'w');
    assert("native"@[0] == 'n' && "pytest"@[0] == 'p');
}

} // verus!
