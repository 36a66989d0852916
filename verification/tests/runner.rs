use rtest::cli::args::{
    determine_worker_count, Args, CannotExpandReport, NumProcesses, Runner,
};
use rtest::cli::exit_codes::{OK, TESTS_FAILED, USAGE_ERROR};
use rtest::collection::error::CollectionError;
use rtest::collection_integration::{CollectionErrors, CollectionResultsWithSplit};
use rtest::config::read_pytest_config;
use rtest::runner::{
    conclude_collection, execution, handle_collection_error, main_cli_with_args,
    overall_exit_code, split_outputs, split_root, splits_files, worker_count,
    write_file_list, write_uncertain_files, AfterCollection, CliRun, Execution, PytestRunner,
};

fn texts(list: &[&str]) -> Vec<String> {
    list.iter().map(|s| s.to_string()).collect()
}

fn run(argv: &[&str]) -> CliRun {
    main_cli_with_args(&texts(argv), 8).unwrap()
}

#[test]
fn pytest_runs_as_a_module_of_the_current_python() {
    let runner = PytestRunner::from_current_python(Some("/usr/bin/python".to_string()));
    assert_eq!(runner.program, "/usr/bin/python");
    assert_eq!(runner.initial_args, vec!["-m", "pytest"]);
    assert!(runner.env_vars.is_empty());
    assert_eq!(PytestRunner::from_current_python(None).program, "python3");
}

#[test]
fn environment_variables_are_split_at_the_first_sign() {
    let (runner, warnings) = PytestRunner::from_current_python_with_env(
        None,
        &texts(&["A=1", "B=x=y", "broken", "=empty", "C="]),
    );
    let pairs: Vec<(&str, &str)> = runner
        .env_vars
        .iter()
        .map(|(key, value)| (key.as_str(), value.as_str()))
        .collect();
    assert_eq!(
        pairs,
        vec![("A", "1"), ("B", "x=y"), ("", "empty"), ("C", "")]
    );
    assert_eq!(
        warnings,
        vec!["Warning: Invalid environment variable format: broken"]
    );
}

#[test]
fn first_argument_may_be_the_root() {
    assert_eq!(
        split_root(&texts(&["tests", "-v"]), true),
        (Some("tests".to_string()), texts(&["-v"]))
    );
    assert_eq!(
        split_root(&texts(&["tests", "-v"]), false),
        (None, texts(&["tests", "-v"]))
    );
    assert_eq!(
        split_root(&texts(&["-v", "tests"]), true),
        (None, texts(&["-v", "tests"]))
    );
    assert_eq!(split_root(&[], true), (None, Vec::new()));
}

#[test]
fn command_lines_are_read() {
    let plain = run(&[]);
    assert_eq!(plain.worker_count, 1);
    assert!(plain.args.files.is_empty());
    assert_eq!(run(&["-n", "auto"]).worker_count, 8);
    assert_eq!(
        run(&["-n", "auto", "--maxprocesses", "3"]).worker_count,
        3
    );
    let long = run(&[
        "-e",
        "A=1",
        "--emit-uncertain-files",
        "u.txt",
        "--all-parametrized-uncertain",
        "--split-simple-files",
        "s.txt",
        "--split-param-files=p.txt",
        "--split-param-tests",
        "t.txt",
        "a.py",
        "b",
    ]);
    assert_eq!(long.args.env, vec!["A=1"]);
    assert_eq!(long.args.emit_uncertain_files.as_deref(), Some("u.txt"));
    assert!(long.args.all_parametrized_uncertain);
    assert_eq!(long.args.split_simple_files.as_deref(), Some("s.txt"));
    assert_eq!(long.args.split_param_files.as_deref(), Some("p.txt"));
    assert_eq!(long.args.split_param_tests.as_deref(), Some("t.txt"));
    assert_eq!(long.args.files, vec!["a.py", "b"]);
}

#[test]
fn wrong_command_lines_end_the_run() {
    let end = |argv: &[&str]| main_cli_with_args(&texts(argv), 8).unwrap_err();
    assert_eq!(end(&["--unknown"]).exit_code, 2);
    assert!(end(&["--unknown"]).to_stderr);
    assert_eq!(end(&["--help"]).exit_code, 0);
    assert!(!end(&["--help"]).to_stderr);
    assert!(end(&["--help"]).message.contains("--cannot-expand-report"));
    assert_eq!(end(&["--maxprocesses", "x"]).exit_code, 2);
    assert!(end(&["--maxprocesses", "x"])
        .message
        .contains("invalid value 'x' for '--maxprocesses <MAXPROCESSES>': invalid digit found in string"));
    let runner = end(&["--runner", "other"]);
    assert!(runner
        .message
        .contains("invalid value 'other' for '--runner <RUNNER>'"));
    assert!(runner.message.contains("[possible values: native, pytest]"));
    assert_eq!(runner.exit_code, 2);
    assert_eq!(end(&["--dist", "load", "--dist", "no"]).exit_code, 2);
    let dist = end(&["--dist", "odd"]);
    assert_eq!(dist.message, "Error: Invalid distribution mode: odd");
    assert_eq!(dist.exit_code, TESTS_FAILED);
    assert_eq!(end(&["-n", "few"]).message, "Error: Invalid number: few");
}

#[test]
fn numbers_of_workers() {
    assert_eq!(determine_worker_count(None, None, 4), 1);
    assert_eq!(determine_worker_count(Some(NumProcesses::Logical), None, 4), 4);
    assert_eq!(determine_worker_count(Some(NumProcesses::Count(6)), Some(2), 4), 2);
    assert_eq!(determine_worker_count(Some(NumProcesses::Count(0)), None, 4), 1);
    let args = Args::parse_from(&texts(&["rtest", "-n", "3"])).unwrap();
    assert_eq!(worker_count(&args, 1), Ok(3));
}

#[test]
fn failures_of_the_collection() {
    assert_eq!(
        handle_collection_error(&CollectionError::FileNotFound("x.py".to_string())),
        (
            "ERROR: file or directory not found: x.py".to_string(),
            USAGE_ERROR
        )
    );
    assert_eq!(
        handle_collection_error(&CollectionError::IoError("disk".to_string())),
        ("FATAL: IO Error: disk".to_string(), TESTS_FAILED)
    );
}

#[test]
fn collection_decides_how_the_run_goes_on() {
    let report = CannotExpandReport::Stdout;
    let step = conclude_collection(
        &Err(CollectionError::FileNotFound("x".to_string())),
        &report,
        false,
    );
    assert_eq!(step.next, AfterCollection::Exit(4));
    assert_eq!(
        step.display.stderr,
        vec!["ERROR: file or directory not found: x"]
    );

    let next = |nodes: &[&str], errors: CollectionErrors, only: bool| {
        conclude_collection(&Ok((texts(nodes), errors)), &report, only).next
    };
    assert_eq!(
        next(&[], CollectionErrors::new(), false),
        AfterCollection::NoTests(OK)
    );
    assert_eq!(
        next(&["a"], CollectionErrors::new(), true),
        AfterCollection::Exit(OK)
    );
    assert_eq!(
        next(&["a"], CollectionErrors::new(), false),
        AfterCollection::Execute
    );
    let broken = CollectionErrors {
        errors: vec![("a".to_string(), CollectionError::ParseError("p".to_string()))],
        warnings: Vec::new(),
    };
    assert_eq!(
        next(&["a"], broken, true),
        AfterCollection::Exit(TESTS_FAILED)
    );
}

#[test]
fn ways_to_execute() {
    let way = |argv: &[&str]| {
        let run = run(argv);
        execution(&run.args, run.worker_count)
    };
    assert_eq!(way(&["--runner", "native", "-n", "4"]), Execution::Native);
    assert_eq!(way(&[]), Execution::BySubproject);
    assert_eq!(way(&["-n", "4", "--dist", "no"]), Execution::BySubproject);
    assert_eq!(way(&["-n", "4"]), Execution::Parallel);
    assert!(matches!(run(&[]).args.runner, Runner::Pytest));
}

#[test]
fn last_failure_decides_the_exit_code() {
    assert_eq!(overall_exit_code(&[]), 0);
    assert_eq!(overall_exit_code(&[0, 0]), 0);
    assert_eq!(overall_exit_code(&[2, 5, 0]), 5);
}

#[test]
fn native_runner_uses_configured_patterns() {
    let config = read_pytest_config(Some(
        "[tool.pytest.ini_options]\npython_files = [\"check_*.py\"]\n",
    ));
    let native = run(&["-n", "2"]).native_config("py".to_string(), "/r".to_string(), config);
    assert_eq!(native.python_files, vec!["check_*.py"]);
    assert_eq!(native.python_classes, vec!["Test*"]);
    assert_eq!(native.python_functions, vec!["test*"]);
    assert_eq!(native.num_workers, 2);
    assert_eq!(native.python_executable, "py");
    assert_eq!(native.root_path, "/r");
}

#[test]
fn lists_are_written_one_item_per_line() {
    assert_eq!(write_file_list(&texts(&["a", "b"])), "a\nb\n");
    assert_eq!(write_file_list(&[]), "");
}

#[test]
fn split_lists_are_written_where_asked_for() {
    let results = CollectionResultsWithSplit {
        test_nodes: Vec::new(),
        errors: CollectionErrors::new(),
        simple_files: texts(&["a.py", "b.py"]),
        param_files: texts(&["p.py"]),
        param_file_tests: texts(&["p.py::t[1]", "p.py::t[2]"]),
    };
    assert!(!splits_files(&run(&[]).args));
    let args = run(&["--split-simple-files", "s", "--split-param-tests", "t"]).args;
    assert!(splits_files(&args));
    let outputs = split_outputs(&args, &results);
    assert_eq!(outputs.len(), 2);
    assert_eq!(outputs[0].path, "s");
    assert_eq!(outputs[0].contents, "a.py\nb.py\n");
    assert_eq!(outputs[0].message, "Wrote 2 simple files to s");
    assert_eq!(outputs[0].failure, "Failed to write simple files: ");
    assert_eq!(outputs[1].message, "Wrote 2 param file tests to t");
    let args = run(&["--split-param-files", "p"]).args;
    assert_eq!(
        split_outputs(&args, &results)[0].message,
        "Wrote 1 param files to p"
    );
}

#[test]
fn uncertain_files_are_written_where_asked_for() {
    assert!(write_uncertain_files(&run(&[]).args, &texts(&["a.py"])).is_empty());
    let args = run(&["--emit-uncertain-files", "u"]).args;
    let outputs = write_uncertain_files(&args, &texts(&["a.py"]));
    assert_eq!(outputs[0].message, "Wrote 1 uncertain files to u");
    assert_eq!(outputs[0].contents, "a.py\n");
    assert_eq!(outputs[0].failure, "Failed to write uncertain files to u: ");
}
