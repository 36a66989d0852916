use rtest::cli::args::{Args, CannotExpandReport, NumProcesses, Runner};
use rtest::cli::command::{number_text, ReadLine};

fn parse(line: &[&str]) -> Args {
    let line: Vec<String> = line.iter().map(|s| s.to_string()).collect();
    Args::parse_from(&line).unwrap()
}

#[test]
fn test_cli_parsing_defaults() {
    let args = parse(&["rtest"]);

    assert!(args.env.is_empty());
    assert!(args.numprocesses.is_none());
    assert!(args.maxprocesses.is_none());
    assert_eq!(args.dist, "load");
    assert!(!args.collect_only);
    assert!(args.files.is_empty());
    assert!(matches!(args.runner, Runner::Pytest));
    assert!(matches!(
        args.cannot_expand_report,
        CannotExpandReport::Stdout
    ));
}

#[test]
fn test_cli_parsing_with_env_vars() {
    let args = parse(&["rtest", "--env", "DEBUG=1", "--env", "TEST=true"]);

    assert_eq!(args.env, vec!["DEBUG=1", "TEST=true"]);
}

#[test]
fn test_cli_parsing_all_options() {
    let args = parse(&["rtest", "--env", "DEBUG=1", "--env", "ENV=test"]);

    assert_eq!(args.env, vec!["DEBUG=1", "ENV=test"]);
}

#[test]
fn test_cli_help_generation() {
    let help = Args::render_help();

    assert!(help.contains("env"));
}

#[test]
fn test_cli_parsing_with_numprocesses() {
    let args = parse(&["rtest", "-n", "4"]);
    assert_eq!(args.numprocesses, Some("4".into()));

    let args = parse(&["rtest", "--numprocesses", "auto"]);
    assert_eq!(args.numprocesses, Some("auto".into()));
}

#[test]
fn test_cli_parsing_with_maxprocesses() {
    let args = parse(&["rtest", "--maxprocesses", "8"]);
    assert_eq!(args.maxprocesses, Some(8));
}

#[test]
fn test_cli_parsing_with_dist() {
    let args = parse(&["rtest", "--dist", "load"]);
    assert_eq!(args.dist, "load");
}

#[test]
fn test_get_num_processes() {
    let args = parse(&["rtest", "-n", "auto"]);
    assert!(matches!(
        args.get_num_processes(),
        Ok(Some(NumProcesses::Auto))
    ));

    let args = parse(&["rtest", "-n", "logical"]);
    assert!(matches!(
        args.get_num_processes(),
        Ok(Some(NumProcesses::Logical))
    ));

    let args = parse(&["rtest", "-n", "4"]);
    assert!(matches!(
        args.get_num_processes(),
        Ok(Some(NumProcesses::Count(4)))
    ));

    let args = parse(&["rtest"]);
    assert!(matches!(args.get_num_processes(), Ok(None)));

    let args = parse(&["rtest", "-n", "invalid"]);
    assert!(args.get_num_processes().is_err());
}

#[test]
fn test_validate_dist() {
    let args = parse(&["rtest", "--dist", "load"]);
    assert!(args.validate_dist().is_ok());

    let args = parse(&["rtest", "--dist", "loadscope"]);
    assert!(args.validate_dist().is_ok());

    let args = parse(&["rtest", "--dist", "loadfile"]);
    assert!(args.validate_dist().is_ok());

    let args = parse(&["rtest", "--dist", "worksteal"]);
    assert!(args.validate_dist().is_ok());

    let args = parse(&["rtest", "--dist", "no"]);
    assert!(args.validate_dist().is_ok());

    let args = parse(&["rtest", "--dist", "invalid"]);
    assert!(args.validate_dist().is_err());

    let args = parse(&["rtest", "--dist", "loadgroup"]);
    assert!(args.validate_dist().is_err()); // No longer supported
}

#[test]
fn test_cli_parsing_with_collect_only() {
    let args = parse(&["rtest", "--collect-only"]);
    assert!(args.collect_only);

    let args = parse(&["rtest"]);
    assert!(!args.collect_only);
}

#[test]
fn test_cli_parsing_with_runner() {
    let args = parse(&["rtest", "--runner", "native"]);
    assert!(matches!(args.runner, Runner::Native));

    let args = parse(&["rtest", "--runner", "pytest"]);
    assert!(matches!(args.runner, Runner::Pytest));
}

#[test]
fn test_cli_parsing_cannot_expand_report() {
    let args = parse(&["rtest"]);
    assert!(matches!(
        args.cannot_expand_report,
        CannotExpandReport::Stdout
    ));

    let args = parse(&["rtest", "--cannot-expand-report", "stderr"]);
    assert!(matches!(
        args.cannot_expand_report,
        CannotExpandReport::Stderr
    ));

    let args = parse(&["rtest", "--cannot-expand-report", "none"]);
    assert!(matches!(
        args.cannot_expand_report,
        CannotExpandReport::Omit
    ));

    let args = parse(&["rtest", "--cannot-expand-report", "report.txt"]);
    match args.cannot_expand_report {
        CannotExpandReport::File(path) => {
            assert_eq!(path, "report.txt");
        }
        other => panic!("expected File, got {other:?}"),
    }
}

#[test]
fn cli_test_cli_parsing_defaults() {
    let args = parse(&["rtest"]);

    assert!(args.env.is_empty());
    assert!(args.numprocesses.is_none());
    assert!(args.maxprocesses.is_none());
    assert_eq!(args.dist, "load");
    assert!(!args.collect_only);
    assert!(args.files.is_empty());
}

#[test]
fn cli_test_cli_parsing_with_env_vars() {
    let args = parse(&["rtest", "--env", "DEBUG=1", "--env", "TEST=true"]);

    assert_eq!(args.env, vec!["DEBUG=1", "TEST=true"]);
}

#[test]
fn cli_test_cli_parsing_all_options() {
    let args = parse(&["rtest", "--env", "DEBUG=1", "--env", "ENV=test"]);

    assert_eq!(args.env, vec!["DEBUG=1", "ENV=test"]);
}

#[test]
fn cli_test_cli_help_generation() {
    let help = Args::render_help();

    assert!(help.contains("env"));
}

#[test]
fn cli_test_cli_parsing_with_numprocesses() {
    let args = parse(&["rtest", "-n", "4"]);
    assert_eq!(args.numprocesses, Some("4".into()));

    let args = parse(&["rtest", "--numprocesses", "auto"]);
    assert_eq!(args.numprocesses, Some("auto".into()));
}

#[test]
fn cli_test_cli_parsing_with_maxprocesses() {
    let args = parse(&["rtest", "--maxprocesses", "8"]);
    assert_eq!(args.maxprocesses, Some(8));
}

#[test]
fn cli_test_cli_parsing_with_dist() {
    let args = parse(&["rtest", "--dist", "load"]);
    assert_eq!(args.dist, "load");
}

#[test]
fn cli_test_get_num_processes() {
    let args = parse(&["rtest", "-n", "auto"]);
    assert!(matches!(
        args.get_num_processes(),
        Ok(Some(NumProcesses::Auto))
    ));

    let args = parse(&["rtest", "-n", "logical"]);
    assert!(matches!(
        args.get_num_processes(),
        Ok(Some(NumProcesses::Logical))
    ));

    let args = parse(&["rtest", "-n", "4"]);
    assert!(matches!(
        args.get_num_processes(),
        Ok(Some(NumProcesses::Count(4)))
    ));

    let args = parse(&["rtest"]);
    assert!(matches!(args.get_num_processes(), Ok(None)));

    let args = parse(&["rtest", "-n", "invalid"]);
    assert!(args.get_num_processes().is_err());
}

#[test]
fn cli_test_validate_dist() {
    let args = parse(&["rtest", "--dist", "load"]);
    assert!(args.validate_dist().is_ok());

    let args = parse(&["rtest", "--dist", "loadscope"]);
    assert!(args.validate_dist().is_ok());

    let args = parse(&["rtest", "--dist", "loadfile"]);
    assert!(args.validate_dist().is_ok());

    let args = parse(&["rtest", "--dist", "worksteal"]);
    assert!(args.validate_dist().is_ok());

    let args = parse(&["rtest", "--dist", "no"]);
    assert!(args.validate_dist().is_ok());

    let args = parse(&["rtest", "--dist", "invalid"]);
    assert!(args.validate_dist().is_err());

    let args = parse(&["rtest", "--dist", "loadgroup"]);
    assert!(args.validate_dist().is_err()); // No longer supported
}

#[test]
fn cli_test_cli_parsing_with_collect_only() {
    let args = parse(&["rtest", "--collect-only"]);
    assert!(args.collect_only);

    let args = parse(&["rtest"]);
    assert!(!args.collect_only);
}

#[test]
fn numbers_are_checked_like_those_of_std() {
    for text in [
        "0",
        "7",
        "+7",
        "",
        "+",
        "-1",
        "x",
        "1x",
        "99999999999999999999999999",
        "99999999999999999999999999x",
        "+99999999999999999999999999",
    ] {
        let expected = match text.parse::<usize>() {
            Ok(_) => Ok(text.to_string()),
            Err(error) => Err(error.to_string()),
        };
        assert_eq!(number_text(text), expected);
    }
}

#[test]
fn arguments_are_taken_from_a_line() {
    let values = |name: &str, list: &[&str]| {
        (
            name.to_string(),
            list.iter().map(|s| s.to_string()).collect::<Vec<String>>(),
        )
    };
    let line = ReadLine {
        values: vec![
            values("maxprocesses", &["3"]),
            values("runner", &["native"]),
            values("cannot-expand-report", &["-"]),
            values("files", &["a", "b"]),
        ],
        flags: vec![("collect-only".to_string(), true)],
    };
    let args = Args::from_line(&line).unwrap();
    assert_eq!(args.maxprocesses, Some(3));
    assert!(matches!(args.runner, Runner::Native));
    assert!(matches!(args.cannot_expand_report, CannotExpandReport::Stdout));
    assert_eq!(args.files, vec!["a", "b"]);
    assert_eq!(args.dist, "load");
    assert!(args.collect_only && !args.all_parametrized_uncertain);

    let wrong = ReadLine {
        values: vec![values("maxprocesses", &["many"])],
        flags: Vec::new(),
    };
    assert!(Args::from_line(&wrong).is_none());
    let wrong = ReadLine {
        values: vec![values("runner", &["other"])],
        flags: Vec::new(),
    };
    assert!(Args::from_line(&wrong).is_none());
}

#[test]
fn help_names_every_option() {
    let help = Args::render_help();
    for name in [
        "--env <ENV>",
        "--numprocesses <NUMPROCESSES>",
        "--maxprocesses <MAXPROCESSES>",
        "--dist <DIST>",
        "--collect-only",
        "--emit-uncertain-files",
        "--all-parametrized-uncertain",
        "--split-simple-files",
        "--split-param-files",
        "--split-param-tests",
        "--cannot-expand-report <DEST>",
        "--runner <RUNNER>",
        "[FILES]...",
    ] {
        assert!(help.contains(name), "{} is missing in {}", name, help);
    }
}

#[test]
fn long_help_tells_more() {
    let line = vec!["rtest".to_string(), "--help".to_string()];
    let end = Args::parse_from(&line).unwrap_err();
    assert_eq!(end.exit_code, 0);
    assert!(!end.to_stderr);
    for text in [
        "Where to write machine-readable cannot-expand records (pytest-incompatible cases).",
        "`none` omits the records (warnings remain).",
        "native:",
        "No pytest required",
        "Full pytest compatibility",
    ] {
        assert!(end.message.contains(text), "{} is missing in {}", text, end.message);
    }
    let short = Args::render_help();
    assert!(short.contains("(pytest-incompatible cases)"));
    assert!(!short.contains("warnings remain"));
}

#[test]
fn the_name_of_the_program_decides_nothing() {
    let read = |words: &[&str]| {
        let line: Vec<String> = words.iter().map(|s| s.to_string()).collect();
        Args::parse_from(&line)
    };
    for name in ["rtest", "/usr/bin/rtest", "..", "", "C:\\x\\rtest.exe"] {
        let args = read(&[name, "-n", "3", "a.py"]).unwrap();
        assert_eq!(args.numprocesses.as_deref(), Some("3"));
        assert_eq!(args.files, vec!["a.py"]);
        let end = read(&[name, "--unknown"]).unwrap_err();
        assert_eq!(end.exit_code, 2);
        assert!(end.to_stderr);
    }
}
