//! What a run does: where it starts, when it ends, and how tests are executed.
//!
//! Processes are started and files written elsewhere; this module decides which, and with which exit
//! code a run ends.

use crate::cli::args::{
    args_of, command_options, command_words, default_args, determine_worker_count,
    lemma_name_is_plain, mode_named, processes_named, workers, Args, ArgsView, CannotExpandReport,
    NumProcesses, Runner,
};
use crate::cli::command::{read_line, taken, LineEnd};
use crate::cli::exit_codes::{OK, TESTS_FAILED, USAGE_ERROR};
use crate::collection::error::{error_text, CollectionError, ErrorView};
use crate::collection_integration::{
    display_collection_results, emitted, records, result_lines, CollectionErrors,
    CollectionResultsWithSplit, Display, DisplayView,
};
use crate::config::PytestConfig;
use crate::native_runner::{
    default_python_classes, default_python_files, default_python_functions, patterns_or,
    NativeRunnerConfig,
};
use crate::strings::{
    chars_of, copy, find, first_place, nat_text, same, starts_with, string_of, text_of, texts,
    usize_string,
};
use vstd::prelude::*;

verus! {

fn push_text(list: &mut Vec<String>, s: &str)
    ensures
        texts(final(list)@) == texts(old(list)@).push(s@),
{
    let ghost before = list@;
    list.push(copy(s));
    assert(texts(list@) =~= texts(before).push(s@));
}

// ---------------------------------------------------------------------------------------------
// Pytest
// ---------------------------------------------------------------------------------------------
/// How pytest is started.
#[derive(Debug)]
pub struct PytestRunner {
    pub program: String,
    pub initial_args: Vec<String>,
    pub env_vars: Vec<(String, String)>,
}

/// View of a [`PytestRunner`].
pub ghost struct RunnerView {
    pub program: Seq<char>,
    pub initial_args: Seq<Seq<char>>,
    pub env_vars: Seq<(Seq<char>, Seq<char>)>,
}

pub open spec fn pair_views(list: Seq<(String, String)>) -> Seq<(Seq<char>, Seq<char>)> {
    Seq::new(list.len(), |i: int| (list[i].0@, list[i].1@))
}

/// The parts of a text before and behind the first `=`.
pub open spec fn assignment(s: Seq<char>) -> Option<(Seq<char>, Seq<char>)> {
    match first_place(s, "="@, 0) {
        Some(at) => Some((s.take(at), s.skip(at + 1))),
        None => None,
    }
}

/// The variables that the texts set, in order.
pub open spec fn assignments(list: Seq<Seq<char>>) -> Seq<(Seq<char>, Seq<char>)>
    decreases list.len(),
{
    if list.len() == 0 {
        seq![]
    } else {
        let before = assignments(list.drop_last());
        match assignment(list.last()) {
            Some(pair) => before.push(pair),
            None => before,
        }
    }
}

/// What is said of the texts that set no variable, in order.
pub open spec fn assignment_warnings(list: Seq<Seq<char>>) -> Seq<Seq<char>>
    decreases list.len(),
{
    if list.len() == 0 {
        seq![]
    } else {
        let before = assignment_warnings(list.drop_last());
        match assignment(list.last()) {
            Some(_) => before,
            None => before.push(
                "Warning: Invalid environment variable format: "@ + list.last(),
            ),
        }
    }
}

/// The program of a runner: the given one, or else `python3`.
pub open spec fn program_or(executable: Option<Seq<char>>) -> Seq<char> {
    match executable {
        Some(program) => program,
        None => "python3"@,
    }
}

fn split_assignment(s: &str) -> (r: Option<(String, String)>)
    ensures
        match r {
            Some((key, value)) => assignment(s@) == Some((key@, value@)),
            None => assignment(s@) is None,
        },
{
    let chars = chars_of(s);
    let n = chars.len();
    let sign = chars_of("=");
    proof {
        reveal_strlit("=");
        assert("="@.len() == 1);
    }
    match find(chars.as_slice(), sign.as_slice()) {
        Some(at) => {
            let key = string_of(chars.as_slice(), 0, at);
            let value = string_of(chars.as_slice(), at + 1, n);
            assert(key@ =~= s@.take(at as int));
            assert(value@ =~= s@.skip(at + 1));
            Some((key, value))
        },
        None => None,
    }
}

/// The path of the Python executable, or `python3` where it is not known.
pub fn get_python_executable(executable: Option<String>) -> (r: String)
    ensures
        r@ == program_or(text_of(executable)),
{
    match executable {
        Some(program) => program,
        None => copy("python3"),
    }
}

impl PytestRunner {
    pub open spec fn view(&self) -> RunnerView {
        RunnerView {
            program: self.program@,
            initial_args: texts(self.initial_args@),
            env_vars: pair_views(self.env_vars@),
        }
    }

    /// Runs pytest as a module of the current Python.
    pub fn from_current_python(executable: Option<String>) -> (r: Self)
        ensures
            r@ == (RunnerView {
                program: program_or(text_of(executable)),
                initial_args: seq!["-m"@, "pytest"@],
                env_vars: seq![],
            }),
    {
        let mut initial_args: Vec<String> = Vec::new();
        push_text(&mut initial_args, "-m");
        push_text(&mut initial_args, "pytest");
        let r = PytestRunner {
            program: get_python_executable(executable),
            initial_args,
            env_vars: Vec::new(),
        };
        assert(r@.initial_args =~= seq!["-m"@, "pytest"@]);
        assert(r@.env_vars =~= Seq::<(Seq<char>, Seq<char>)>::empty());
        r
    }

    /// Runs pytest as a module of the current Python, with variables given as `KEY=VALUE`. Also
    /// gives a warning for each text of another form.
    pub fn from_current_python_with_env(executable: Option<String>, env_vars: &[String]) -> (r: (
        Self,
        Vec<String>,
    ))
        ensures
            r.0@ == (RunnerView {
                program: program_or(text_of(executable)),
                initial_args: seq!["-m"@, "pytest"@],
                env_vars: assignments(texts(env_vars@)),
            }),
            texts(r.1@) == assignment_warnings(texts(env_vars@)),
    {
        let ghost all = texts(env_vars@);
        let mut runner = PytestRunner::from_current_python(executable);
        let ghost plain = runner@;
        let mut parsed: Vec<(String, String)> = Vec::new();
        let mut warnings: Vec<String> = Vec::new();
        let mut i: usize = 0;
        proof {
            assert(all.take(0) =~= Seq::<Seq<char>>::empty());
            assert(pair_views(parsed@) =~= Seq::<(Seq<char>, Seq<char>)>::empty());
            assert(texts(warnings@) =~= Seq::<Seq<char>>::empty());
        }
        while i < env_vars.len()
            invariant
                i <= env_vars@.len(),
                all == texts(env_vars@),
                pair_views(parsed@) == assignments(all.take(i as int)),
                texts(warnings@) == assignment_warnings(all.take(i as int)),
            decreases env_vars@.len() - i,
        {
            proof {
                assert(all.take(i + 1).drop_last() =~= all.take(i as int));
                assert(all.take(i + 1).last() == env_vars@[i as int]@);
            }
            match split_assignment(env_vars[i].as_str()) {
                Some((key, value)) => {
                    let ghost before = pair_views(parsed@);
                    let ghost pair = (key@, value@);
                    parsed.push((key, value));
                    assert(pair_views(parsed@) =~= before.push(pair));
                },
                None => {
                    let mut warning = copy("Warning: Invalid environment variable format: ");
                    warning.append(env_vars[i].as_str());
                    push_text(&mut warnings, warning.as_str());
                },
            }
            i = i + 1;
        }
        assert(all.take(all.len() as int) =~= all);
        runner.env_vars = parsed;
        (runner, warnings)
    }
}

// ---------------------------------------------------------------------------------------------
// Start
// ---------------------------------------------------------------------------------------------
/// The first argument is taken as the root: it is no flag, and it exists.
pub open spec fn leads_with_root(args: Seq<Seq<char>>, first_exists: bool) -> bool {
    args.len() > 0 && !"-"@.is_prefix_of(args[0]) && first_exists
}

/// Takes the first argument as the root where it is a path that exists. Gives the root, if it is
/// not the current directory, and the arguments that remain.
pub fn split_root(pytest_args: &[String], first_exists: bool) -> (r: (Option<String>, Vec<String>))
    ensures
        leads_with_root(texts(pytest_args@), first_exists) ==> text_of(r.0) == Some(
            texts(pytest_args@)[0],
        ) && texts(r.1@) == texts(pytest_args@).drop_first(),
        !leads_with_root(texts(pytest_args@), first_exists) ==> r.0 is None && texts(r.1@) == texts(
            pytest_args@,
        ),
{
    let ghost all = texts(pytest_args@);
    let mut root: Option<String> = None;
    let mut from: usize = 0;
    if pytest_args.len() > 0 {
        assert(all[0] == pytest_args@[0]@);
        if !starts_with(pytest_args[0].as_str(), "-") && first_exists {
            root = Some(copy(pytest_args[0].as_str()));
            from = 1;
        }
    }
    let mut rest: Vec<String> = Vec::new();
    let mut i: usize = from;
    assert(texts(rest@) =~= all.subrange(from as int, from as int));
    while i < pytest_args.len()
        invariant
            from <= i <= pytest_args@.len(),
            all == texts(pytest_args@),
            texts(rest@) == all.subrange(from as int, i as int),
        decreases pytest_args@.len() - i,
    {
        push_text(&mut rest, pytest_args[i].as_str());
        assert(all.subrange(from as int, i + 1) =~= all.subrange(from as int, i as int).push(
            pytest_args@[i as int]@,
        ));
        i = i + 1;
    }
    proof {
        assert(all.subrange(0, all.len() as int) =~= all);
        if from == 1 {
            assert(all.subrange(1, all.len() as int) =~= all.drop_first());
        }
    }
    (root, rest)
}

/// What is asked for in a command line's number of processes.
pub open spec fn asked_for(args: ArgsView) -> Result<Option<NumProcesses>, Seq<char>> {
    match args.numprocesses {
        None => Ok(None),
        Some(text) => match processes_named(text) {
            Ok(n) => Ok(Some(n)),
            Err(message) => Err(message),
        },
    }
}

/// How many workers a command line asks for on a machine with that many cores, or what is wrong
/// with it.
pub open spec fn workers_for(args: ArgsView, cores: usize) -> Result<nat, Seq<char>> {
    if mode_named(args.dist) is None {
        Err("Error: "@ + ("Invalid distribution mode: "@ + args.dist))
    } else {
        match asked_for(args) {
            Err(message) => Err("Error: "@ + message),
            Ok(wanted) => Ok(workers(wanted, args.maxprocesses, cores)),
        }
    }
}

/// How many workers a command line asks for, or what is wrong with it.
pub fn worker_count(args: &Args, cores: usize) -> (r: Result<usize, String>)
    ensures
        match r {
            Ok(n) => workers_for(args@, cores) == Ok::<nat, Seq<char>>(n as nat),
            Err(message) => workers_for(args@, cores) == Err::<nat, Seq<char>>(message@),
        },
{
    if let Err(e) = args.validate_dist() {
        let mut message = copy("Error: ");
        message.append(e.as_str());
        return Err(message);
    }
    match args.get_num_processes() {
        Ok(n) => Ok(determine_worker_count(n, args.maxprocesses, cores)),
        Err(e) => {
            let mut message = copy("Error: ");
            message.append(e.as_str());
            Err(message)
        },
    }
}

/// A run of the command line tool: its arguments and the number of its workers.
#[derive(Debug)]
pub struct CliRun {
    pub args: Args,
    pub worker_count: usize,
}

/// Reads the arguments behind the program's name and finds how many workers they ask for, or how
/// the run ends at once.
pub fn main_cli_with_args(argv: &[String], cores: usize) -> (r: Result<CliRun, LineEnd>)
    ensures
        match read_line(command_words(), command_options(), seq!["rtest"@] + texts(argv@)) {
            Err(end) => r matches Err(e) && e@ == end,
            Ok(found) => match args_of(taken(command_options(), found)) {
                None => false,
                Some(args) => match workers_for(args, cores) {
                    Err(message) => r matches Err(e) && e.message@ == message && e.to_stderr
                        && e.exit_code == TESTS_FAILED,
                    Ok(n) => r matches Ok(run) && run.args@ == args && run.worker_count == n,
                },
            },
        },
        argv@.len() == 0 ==> r is Ok && r->Ok_0.args@ == default_args() && r->Ok_0.worker_count
            == 1,
{
    // Prepend program name for parsing
    let mut full_args: Vec<String> = Vec::new();
    push_text(&mut full_args, "rtest");
    let ghost all = texts(argv@);
    let mut i: usize = 0;
    assert(texts(full_args@) =~= seq!["rtest"@] + all.take(0));
    while i < argv.len()
        invariant
            i <= argv@.len(),
            all == texts(argv@),
            texts(full_args@) == seq!["rtest"@] + all.take(i as int),
        decreases argv@.len() - i,
    {
        push_text(&mut full_args, argv[i].as_str());
        assert(seq!["rtest"@] + all.take(i + 1) =~= (seq!["rtest"@] + all.take(i as int)).push(
            argv@[i as int]@,
        ));
        i = i + 1;
    }
    assert(all.take(all.len() as int) =~= all);
    proof {
        lemma_name_is_plain();
    }
    let args = Args::parse_from(full_args.as_slice())?;
    match worker_count(&args, cores) {
        Err(message) => Err(LineEnd { message, to_stderr: true, exit_code: TESTS_FAILED }),
        Ok(n) => Ok(CliRun { args, worker_count: n }),
    }
}

/// The configured texts, or the defaults where none are configured.
pub open spec fn texts_or(configured: Seq<Seq<char>>, defaults: Seq<Seq<char>>) -> Seq<Seq<char>> {
    if configured.len() == 0 {
        defaults
    } else {
        configured
    }
}

impl CliRun {
    /// What the native runner is given: the patterns of the project's configuration, or else
    /// pytest's own.
    pub fn native_config(
        &self,
        python_executable: String,
        root_path: String,
        pytest_config: PytestConfig,
    ) -> (r: NativeRunnerConfig)
        ensures
            r.python_executable == python_executable,
            r.root_path == root_path,
            r.num_workers == self.worker_count,
            texts(r.python_files@) == texts_or(
                pytest_config@.python_files,
                seq!["test_*.py"@, "*_test.py"@],
            ),
            texts(r.python_classes@) == texts_or(pytest_config@.python_classes, seq!["Test*"@]),
            texts(r.python_functions@) == texts_or(pytest_config@.python_functions, seq!["test*"@]),
    {
        NativeRunnerConfig {
            python_executable,
            root_path,
            num_workers: self.worker_count,
            python_files: patterns_or(pytest_config.python_files, default_python_files()),
            python_classes: patterns_or(pytest_config.python_classes, default_python_classes()),
            python_functions: patterns_or(
                pytest_config.python_functions,
                default_python_functions(),
            ),
        }
    }
}

// ---------------------------------------------------------------------------------------------
// Collection
// ---------------------------------------------------------------------------------------------
/// What is said where the collection fails as a whole.
pub open spec fn failure_text(error: ErrorView) -> Seq<char> {
    match error {
        ErrorView::FileNotFound(path) => "ERROR: file or directory not found: "@ + path,
        _ => "FATAL: "@ + error_text(error),
    }
}

/// What is said, and which exit code is used, where the collection fails as a whole.
pub fn handle_collection_error(error: &CollectionError) -> (r: (String, i32))
    ensures
        r.0@ == failure_text(error@),
        r.1 == if error@ is FileNotFound {
            USAGE_ERROR
        } else {
            TESTS_FAILED
        },
{
    match error {
        CollectionError::FileNotFound(path) => {
            let mut message = copy("ERROR: file or directory not found: ");
            message.append(path.as_str());
            (message, USAGE_ERROR)
        },
        _ => {
            let mut message = copy("FATAL: ");
            message.append(error.describe().as_str());
            (message, TESTS_FAILED)
        },
    }
}

/// How a run goes on after the collection.
#[derive(Debug, Clone, Copy, PartialEq, Eq, Structural)]
pub enum AfterCollection {
    /// It ends with that exit code.
    Exit(i32),
    /// It says that there are no tests and ends with that exit code.
    NoTests(i32),
    /// The tests are run.
    Execute,
}

/// How a run goes on: errors end it, and so does the lack of tests, and the wish to collect only.
pub fn after_collection(
    errors: &CollectionErrors,
    test_nodes: &[String],
    collect_only: bool,
) -> (r: AfterCollection)
    ensures
        r == if errors@.errors.len() > 0 {
            AfterCollection::Exit(TESTS_FAILED)
        } else if test_nodes@.len() == 0 {
            AfterCollection::NoTests(OK)
        } else if collect_only {
            AfterCollection::Exit(OK)
        } else {
            AfterCollection::Execute
        },
{
    // Exit early if there are collection errors to prevent test execution
    if errors.errors.len() > 0 {
        AfterCollection::Exit(TESTS_FAILED)
    } else if test_nodes.len() == 0 {
        AfterCollection::NoTests(OK)
    } else if collect_only {
        // Exit after collection if --collect-only flag is set
        AfterCollection::Exit(OK)
    } else {
        AfterCollection::Execute
    }
}

/// What is shown of a collection, and how the run goes on.
#[derive(Debug)]
pub struct CollectionStep {
    pub display: Display,
    pub next: AfterCollection,
}

/// What is said where there are no tests.
pub const NO_TESTS_FOUND: &'static str = "No tests found.";

/// Shows what the collection came to, and decides how the run goes on. A collection that failed as a
/// whole ends it.
pub fn conclude_collection(
    outcome: &Result<(Vec<String>, CollectionErrors), CollectionError>,
    report: &CannotExpandReport,
    collect_only: bool,
) -> (r: CollectionStep)
    ensures
        match outcome {
            Err(error) => {
                &&& r.display@ == (DisplayView {
                    stdout: seq![],
                    stderr: seq![failure_text(error@)],
                    file: None,
                })
                &&& r.next == AfterCollection::Exit(
                    if error@ is FileNotFound {
                        USAGE_ERROR
                    } else {
                        TESTS_FAILED
                    },
                )
            },
            Ok((nodes, errors)) => {
                &&& r.display@ == emitted(
                    result_lines(texts(nodes@), errors@),
                    records(errors@.warnings),
                    report@,
                )
                &&& r.next == if errors@.errors.len() > 0 {
                    AfterCollection::Exit(TESTS_FAILED)
                } else if nodes@.len() == 0 {
                    AfterCollection::NoTests(OK)
                } else if collect_only {
                    AfterCollection::Exit(OK)
                } else {
                    AfterCollection::Execute
                }
            },
        },
{
    match outcome {
        Err(error) => {
            let (message, code) = handle_collection_error(error);
            let mut stderr: Vec<String> = Vec::new();
            push_text(&mut stderr, message.as_str());
            let display = Display { stdout: Vec::new(), stderr, file: None };
            assert(display@.stdout =~= Seq::<Seq<char>>::empty());
            assert(display@.stderr =~= seq![failure_text(error@)]);
            CollectionStep { display, next: AfterCollection::Exit(code) }
        },
        Ok((nodes, errors)) => CollectionStep {
            display: display_collection_results(nodes.as_slice(), errors, report),
            next: after_collection(errors, nodes.as_slice(), collect_only),
        },
    }
}

// ---------------------------------------------------------------------------------------------
// Execution
// ---------------------------------------------------------------------------------------------
/// How tests are executed.
#[derive(Debug, Clone, Copy, PartialEq, Eq, Structural)]
pub enum Execution {
    /// By the native runner.
    Native,
    /// By pytest, one subproject after the other.
    BySubproject,
    /// By several pytest workers at once.
    Parallel,
}

/// How the tests are executed.
pub fn execution(args: &Args, worker_count: usize) -> (r: Execution)
    ensures
        r == if args@.runner == Runner::Native {
            Execution::Native
        } else if worker_count == 1 || args@.dist == "no"@ {
            Execution::BySubproject
        } else {
            Execution::Parallel
        },
{
    match args.runner {
        Runner::Native => Execution::Native,
        Runner::Pytest => if worker_count == 1 || same(args.dist.as_str(), "no") {
            Execution::BySubproject
        } else {
            Execution::Parallel
        },
    }
}

/// The last of the codes that is not zero, or zero.
pub open spec fn last_failure(codes: Seq<i32>) -> i32
    decreases codes.len(),
{
    if codes.len() == 0 {
        0
    } else if codes.last() != 0 {
        codes.last()
    } else {
        last_failure(codes.drop_last())
    }
}

/// The exit code of runs that followed one another.
pub fn overall_exit_code(codes: &[i32]) -> (r: i32)
    ensures
        r == last_failure(codes@),
{
    let mut overall: i32 = 0;
    let mut i: usize = 0;
    assert(codes@.take(0) =~= Seq::<i32>::empty());
    while i < codes.len()
        invariant
            i <= codes@.len(),
            overall == last_failure(codes@.take(i as int)),
        decreases codes@.len() - i,
    {
        proof {
            assert(codes@.take(i + 1).drop_last() =~= codes@.take(i as int));
            assert(codes@.take(i + 1).last() == codes@[i as int]);
        }
        if codes[i] != 0 {
            overall = codes[i];
        }
        i = i + 1;
    }
    assert(codes@.take(codes@.len() as int) =~= codes@);
    overall
}

/// Runs that followed one another end well just where each of them did.
pub proof fn lemma_overall_success(codes: Seq<i32>)
    ensures
        last_failure(codes) == 0 <==> forall|i: int| 0 <= i < codes.len() ==> #[trigger] codes[i] == 0,
    decreases codes.len(),
{
    if codes.len() > 0 {
        let front = codes.drop_last();
        lemma_overall_success(front);
        if last_failure(codes) == 0 {
            assert forall|i: int| 0 <= i < codes.len() implies #[trigger] codes[i] == 0 by {
                if i < front.len() {
                    assert(codes[i] == front[i]);
                }
            }
        } else if codes.last() != 0 {
            assert(codes[codes.len() - 1] != 0);
        } else {
            let k = choose|k: int| 0 <= k < front.len() && front[k] != 0;
            assert(codes[k] == front[k]);
        }
    }
}

// ---------------------------------------------------------------------------------------------
// Lists of files
// ---------------------------------------------------------------------------------------------
/// The texts, each with a line end.
pub open spec fn one_per_line(items: Seq<Seq<char>>) -> Seq<char>
    decreases items.len(),
{
    if items.len() == 0 {
        seq![]
    } else {
        one_per_line(items.drop_last()) + items.last() + seq!['\n']
    }
}

/// The contents of a file with a list of strings, one per line
pub fn write_file_list(items: &[String]) -> (r: String)
    ensures
        r@ == one_per_line(texts(items@)),
{
    let ghost all = texts(items@);
    let mut r = String::new();
    let mut i: usize = 0;
    assert(all.take(0) =~= Seq::<Seq<char>>::empty());
    assert(r@ =~= one_per_line(all.take(0)));
    while i < items.len()
        invariant
            i <= items@.len(),
            all == texts(items@),
            r@ == one_per_line(all.take(i as int)),
        decreases items@.len() - i,
    {
        proof {
            assert(all.take(i + 1).drop_last() =~= all.take(i as int));
            assert(all.take(i + 1).last() == items@[i as int]@);
        }
        let ghost before = r@;
        r.append(items[i].as_str());
        r.push('\n');
        assert(r@ =~= before + items@[i as int]@ + seq!['\n']);
        i = i + 1;
    }
    assert(all.take(all.len() as int) =~= all);
    r
}

/// A list that a run writes to a file.
#[derive(Debug)]
pub struct ListOutput {
    pub path: String,
    pub contents: String,
    /// What is said once it is written.
    pub message: String,
    /// What comes before the reason where it cannot be written.
    pub failure: String,
}

/// View of a [`ListOutput`].
pub ghost struct OutputView {
    pub path: Seq<char>,
    pub contents: Seq<char>,
    pub message: Seq<char>,
    pub failure: Seq<char>,
}

impl ListOutput {
    pub open spec fn view(&self) -> OutputView {
        OutputView {
            path: self.path@,
            contents: self.contents@,
            message: self.message@,
            failure: self.failure@,
        }
    }
}

pub open spec fn output_views(list: Seq<ListOutput>) -> Seq<OutputView> {
    Seq::new(list.len(), |i: int| list[i].view())
}

/// The output for a list of things, where a path is given for it.
pub open spec fn list_output(
    path: Option<Seq<char>>,
    items: Seq<Seq<char>>,
    things: Seq<char>,
    failure: Seq<char>,
) -> Seq<OutputView> {
    match path {
        None => seq![],
        Some(path) => seq![
            OutputView {
                path,
                contents: one_per_line(items),
                message: "Wrote "@ + nat_text(items.len()) + things + " to "@ + path,
                failure,
            },
        ],
    }
}

fn push_output(
    list: &mut Vec<ListOutput>,
    path: &Option<String>,
    items: &[String],
    things: &str,
    failure: &str,
)
    ensures
        output_views(final(list)@) == output_views(old(list)@) + list_output(
            text_of(*path),
            texts(items@),
            things@,
            failure@,
        ),
{
    let ghost before = output_views(list@);
    if let Some(path) = path {
        let mut message = copy("Wrote ");
        message.append(usize_string(items.len()).as_str());
        message.append(things);
        message.append(" to ");
        message.append(path.as_str());
        list.push(
            ListOutput {
                path: copy(path.as_str()),
                contents: write_file_list(items),
                message,
                failure: copy(failure),
            },
        );
    }
    assert(output_views(list@) =~= before + list_output(
        text_of(*path),
        texts(items@),
        things@,
        failure@,
    ));
}

/// Files are split by whether they hold parametrized tests.
pub fn splits_files(args: &Args) -> (r: bool)
    ensures
        r == (args@.split_simple_files is Some || args@.split_param_files is Some),
{
    args.split_simple_files.is_some() || args.split_param_files.is_some()
}

/// The lists that are written where files are split: those without parametrized tests, those with
/// such tests, and the tests of the latter.
pub fn split_outputs(args: &Args, results: &CollectionResultsWithSplit) -> (r: Vec<ListOutput>)
    ensures
        output_views(r@) == list_output(
            args@.split_simple_files,
            texts(results.simple_files@),
            " simple files"@,
            "Failed to write simple files: "@,
        ) + list_output(
            args@.split_param_files,
            texts(results.param_files@),
            " param files"@,
            "Failed to write param files: "@,
        ) + list_output(
            args@.split_param_tests,
            texts(results.param_file_tests@),
            " param file tests"@,
            "Failed to write param tests: "@,
        ),
{
    let mut r: Vec<ListOutput> = Vec::new();
    assert(output_views(r@) =~= Seq::<OutputView>::empty());
    push_output(
        &mut r,
        &args.split_simple_files,
        results.simple_files.as_slice(),
        " simple files",
        "Failed to write simple files: ",
    );
    let ghost one = list_output(
        args@.split_simple_files,
        texts(results.simple_files@),
        " simple files"@,
        "Failed to write simple files: "@,
    );
    assert(Seq::<OutputView>::empty() + one =~= one);
    push_output(
        &mut r,
        &args.split_param_files,
        results.param_files.as_slice(),
        " param files",
        "Failed to write param files: ",
    );
    push_output(
        &mut r,
        &args.split_param_tests,
        results.param_file_tests.as_slice(),
        " param file tests",
        "Failed to write param tests: ",
    );
    r
}

/// The list of uncertain files, where it is asked for.
pub fn write_uncertain_files(args: &Args, files: &[String]) -> (r: Vec<ListOutput>)
    ensures
        output_views(r@) == match args@.emit_uncertain_files {
            None => seq![],
            Some(path) => list_output(
                Some(path),
                texts(files@),
                " uncertain files"@,
                "Failed to write uncertain files to "@ + path + ": "@,
            ),
        },
{
    let mut r: Vec<ListOutput> = Vec::new();
    assert(output_views(r@) =~= Seq::<OutputView>::empty());
    if let Some(path) = &args.emit_uncertain_files {
        let mut failure = copy("Failed to write uncertain files to ");
        failure.append(path.as_str());
        failure.append(": ");
        push_output(
            &mut r,
            &args.emit_uncertain_files,
            files,
            " uncertain files",
            failure.as_str(),
        );
        proof {
            let one = list_output(
                args@.emit_uncertain_files,
                texts(files@),
                " uncertain files"@,
                failure@,
            );
            assert(Seq::<OutputView>::empty() + one =~= one);
        }
    }
    r
}

} // verus!
