use rtest::native_runner::{
    aggregate_results, collect_test_files, default_python_files, execute_native,
    is_hidden_or_ignored, is_test_file, lines, output_name, parse_results_file, print_summary,
    result_line_message, run_exit_code, shard_files, worker_arguments, worker_end, worker_errors,
    worker_not_started, ErrorInfo, FoundPath, NativeRunnerConfig, TestResult, WorkerEnd,
};
use std::path::{Path, PathBuf};

fn matches_path(path: &Path, patterns: &[String]) -> bool {
    is_test_file(path.file_name().unwrap().to_str().unwrap(), patterns)
}

#[test]
fn test_shard_files_empty() {
    let result = shard_files(Vec::<PathBuf>::new(), 4);
    assert!(result.is_empty());
}

#[test]
fn test_shard_files_zero_workers() {
    let files = vec![PathBuf::from("a.py"), PathBuf::from("b.py")];
    let result = shard_files(files, 0);
    assert!(result.is_empty());
}

#[test]
fn test_shard_files_single_worker() {
    let files = vec![
        PathBuf::from("a.py"),
        PathBuf::from("b.py"),
        PathBuf::from("c.py"),
    ];
    let result = shard_files(files.clone(), 1);
    assert_eq!(result.len(), 1);
    assert_eq!(result[0], files);
}

#[test]
fn test_shard_files_round_robin() {
    let files = vec![
        PathBuf::from("a.py"),
        PathBuf::from("b.py"),
        PathBuf::from("c.py"),
        PathBuf::from("d.py"),
        PathBuf::from("e.py"),
    ];
    let result = shard_files(files, 3);

    assert_eq!(result.len(), 3);
    assert_eq!(
        result[0],
        vec![PathBuf::from("a.py"), PathBuf::from("d.py")]
    );
    assert_eq!(
        result[1],
        vec![PathBuf::from("b.py"), PathBuf::from("e.py")]
    );
    assert_eq!(result[2], vec![PathBuf::from("c.py")]);
}

#[test]
fn test_shard_files_more_workers_than_files() {
    let files = vec![PathBuf::from("a.py"), PathBuf::from("b.py")];
    let result = shard_files(files, 5);

    assert_eq!(result.len(), 2);
    assert_eq!(result[0], vec![PathBuf::from("a.py")]);
    assert_eq!(result[1], vec![PathBuf::from("b.py")]);
}

#[test]
fn test_is_test_file() {
    let default_patterns = default_python_files();
    assert!(matches_path(Path::new("test_foo.py"), &default_patterns));
    assert!(matches_path(Path::new("foo_test.py"), &default_patterns));
    assert!(matches_path(
        Path::new("path/to/test_bar.py"),
        &default_patterns
    ));
    assert!(!matches_path(Path::new("foo.py"), &default_patterns));
    assert!(!matches_path(Path::new("conftest.py"), &default_patterns));
    assert!(!matches_path(Path::new("test_foo.txt"), &default_patterns));
}

#[test]
fn test_is_test_file_custom_patterns() {
    let patterns: Vec<String> = vec!["check_*.py".into(), "*_spec.py".into()];
    assert!(matches_path(Path::new("check_validation.py"), &patterns));
    assert!(matches_path(Path::new("user_spec.py"), &patterns));
    assert!(!matches_path(Path::new("test_foo.py"), &patterns));
    assert!(!matches_path(Path::new("foo_test.py"), &patterns));
}

#[test]
fn test_aggregate_results() {
    let results = vec![
        vec![
            TestResult {
                nodeid: "test1".into(),
                outcome: "passed".into(),
                duration_bits: f64::to_bits(10.0),
                stdout: String::new(),
                stderr: String::new(),
                error: None,
                error_type: None,
            },
            TestResult {
                nodeid: "test2".into(),
                outcome: "failed".into(),
                duration_bits: f64::to_bits(20.0),
                stdout: String::new(),
                stderr: String::new(),
                error: Some(ErrorInfo {
                    traceback: Some("AssertionError".into()),
                    reason: None,
                }),
                error_type: Some("AssertionError".into()),
            },
        ],
        vec![TestResult {
            nodeid: "test3".into(),
            outcome: "skipped".into(),
            duration_bits: f64::to_bits(0.0),
            stdout: String::new(),
            stderr: String::new(),
            error: Some(ErrorInfo {
                traceback: None,
                reason: Some("WIP".into()),
            }),
            error_type: None,
        }],
    ];

    let aggregated = aggregate_results(&results);
    assert_eq!(aggregated.total, 3);
    assert_eq!(aggregated.passed, 1);
    assert_eq!(aggregated.failed, 1);
    assert_eq!(aggregated.skipped, 1);
    assert_eq!(aggregated.failures.len(), 1);
    let total_duration_ms: f64 = aggregated
        .duration_bits
        .iter()
        .map(|bits| f64::from_bits(*bits))
        .sum();
    assert_eq!(total_duration_ms, 30.0);
}

fn texts(list: &[&str]) -> Vec<String> {
    list.iter().map(|s| s.to_string()).collect()
}

fn result(nodeid: &str, outcome: &str, error: Option<ErrorInfo>) -> TestResult {
    TestResult {
        nodeid: nodeid.to_string(),
        outcome: outcome.to_string(),
        duration_bits: 0,
        stdout: String::new(),
        stderr: String::new(),
        error,
        error_type: None,
    }
}

#[test]
fn every_item_is_dealt_once() {
    for n in 0usize..12 {
        for workers in 0usize..6 {
            let shards = shard_files((0..n).collect::<Vec<usize>>(), workers);
            let k = shards.len();
            assert_eq!(k, workers.min(n));
            for (w, shard) in shards.iter().enumerate() {
                assert!(!shard.is_empty());
                for (j, item) in shard.iter().enumerate() {
                    assert_eq!(*item, w + j * k);
                }
            }
            let total: usize = shards.iter().map(|s| s.len()).sum();
            assert_eq!(total, if workers == 0 { 0 } else { n });
        }
    }
}

#[test]
fn unknown_outcomes_count_as_errors() {
    let results = vec![vec![
        result("a", "error", None),
        result("b", "strange", None),
        result("c", "passed", None),
    ]];
    let aggregated = aggregate_results(&results);
    assert_eq!(aggregated.error, 2);
    assert_eq!(aggregated.errors.len(), 1);
    assert_eq!(
        aggregated.passed + aggregated.failed + aggregated.error + aggregated.skipped,
        aggregated.total
    );
}

#[test]
fn lines_end_like_those_of_str() {
    for text in ["", "a", "a\n", "a\r\nb", "a\r", "\n\n", "a\n\nb\n", "\r\n", "x\r\r\ny"] {
        let expected: Vec<&str> = text.lines().collect();
        assert_eq!(lines(text), expected);
    }
}

#[test]
fn result_lines_are_numbered() {
    assert_eq!(
        parse_results_file("{1}\n\n  \n{2}\n"),
        vec![(1, "{1}".to_string()), (4, "{2}".to_string())]
    );
    assert_eq!(
        result_line_message(4, "bad"),
        "Failed to parse JSON on line 4: bad"
    );
}

#[test]
fn summary_shows_failures_and_counts() {
    let results = vec![vec![
        result("a.py::test_a", "passed", None),
        result(
            "a.py::test_b",
            "failed",
            Some(ErrorInfo {
                traceback: Some("line one\nline two".to_string()),
                reason: Some("unused".to_string()),
            }),
        ),
        result(
            "a.py::test_c",
            "error",
            Some(ErrorInfo {
                traceback: None,
                reason: Some("why".to_string()),
            }),
        ),
        result("a.py::test_d", "skipped", None),
    ]];
    let aggregated = aggregate_results(&results);
    assert_eq!(
        print_summary(&aggregated, "0.25"),
        vec![
            "",
            "================================ SUMMARY ================================",
            "",
            "FAILURES:",
            "  a.py::test_b",
            "    line one",
            "    line two",
            "",
            "ERRORS:",
            "  a.py::test_c",
            "    why",
            "",
            "========== FAILED 1 passed, 1 failed, 1 error, 1 skipped in 0.25s ==========",
        ]
    );
    assert_eq!(run_exit_code(&aggregated, &Vec::new()), 1);
    let good = aggregate_results(&vec![vec![result("a", "passed", None)]]);
    assert_eq!(
        print_summary(&good, "1.00").last().unwrap(),
        "========== PASSED 1 passed in 1.00s =========="
    );
    assert_eq!(run_exit_code(&good, &Vec::new()), 0);
    assert_eq!(run_exit_code(&good, &texts(&["Worker 0 panicked"])), 1);
}

#[test]
fn workers_are_given_their_arguments() {
    assert_eq!(
        worker_arguments(
            "/root",
            "/tmp/worker-0.jsonl",
            &texts(&["a.py", "b.py"]),
            &texts(&["Test*"]),
            &texts(&["test*", "check*"]),
        ),
        vec![
            "-m",
            "rtest.worker",
            "--root",
            "/root",
            "--out",
            "/tmp/worker-0.jsonl",
            "--python-classes",
            "Test*",
            "--python-functions",
            "test*",
            "check*",
            "--",
            "a.py",
            "b.py",
        ]
    );
    assert_eq!(
        worker_arguments("r", "o", &[], &[], &[]),
        vec!["-m", "rtest.worker", "--root", "r", "--out", "o", "--"]
    );
    assert_eq!(output_name(3), "worker-3.jsonl");
}

#[test]
fn exits_of_workers() {
    assert!(matches!(worker_end(0, Some(0), "noise"), WorkerEnd::Done));
    assert!(matches!(worker_end(0, Some(1), "noise"), WorkerEnd::Done));
    match worker_end(2, Some(3), "trouble\n") {
        WorkerEnd::Failed(message, Some(notice)) => {
            assert_eq!(
                message,
                "Worker 2 crashed with exit code 3 (expected 0 or 1)"
            );
            assert_eq!(notice, "Worker 2 stderr:\ntrouble\n");
        }
        other => panic!("unexpected {:?}", other),
    }
    match worker_end(2, None, " \n") {
        WorkerEnd::Failed(message, None) => assert_eq!(
            message,
            "Worker 2 crashed with exit code -1 (expected 0 or 1)"
        ),
        other => panic!("unexpected {:?}", other),
    }
    let ends = vec![
        WorkerEnd::Done,
        worker_not_started(1, "no python"),
        WorkerEnd::Panicked,
    ];
    assert_eq!(
        worker_errors(&ends),
        vec![
            "Worker 1: Worker 1 failed to start: no python",
            "Worker 2 panicked",
        ]
    );
}

fn config(num_workers: usize) -> NativeRunnerConfig {
    NativeRunnerConfig {
        python_executable: "python3".to_string(),
        root_path: "/root".to_string(),
        num_workers,
        python_files: Vec::new(),
        python_classes: Vec::new(),
        python_functions: Vec::new(),
    }
}

#[test]
fn runs_are_planned() {
    let plan = execute_native(&config(4), Vec::<String>::new());
    assert_eq!(plan.message, "No test files to run.");
    assert!(plan.shards.is_empty());

    let plan = execute_native(&config(0), vec!["a.py", "b.py"]);
    assert_eq!(plan.message, "Running 2 test file(s) with 1 worker(s)");
    assert_eq!(plan.shards, vec![vec!["a.py", "b.py"]]);

    let plan = execute_native(&config(3), vec!["a.py", "b.py"]);
    assert_eq!(plan.message, "Running 2 test file(s) with 3 worker(s)");
    assert_eq!(plan.shards.len(), 2);
}

#[test]
fn hidden_names_are_passed_over() {
    assert!(is_hidden_or_ignored(".git"));
    assert!(is_hidden_or_ignored("__pycache__"));
    assert!(!is_hidden_or_ignored("tests"));
    assert!(!is_hidden_or_ignored(""));
}

#[test]
fn test_files_are_sorted_by_the_names_on_their_paths() {
    let found = |names: &[&str], is_file: bool| FoundPath {
        names: texts(names),
        is_file,
    };
    let files = collect_test_files(
        vec![
            found(&["r", "b", "test_x.py"], true),
            found(&["r", "b-c", "test_y.py"], true),
            found(&["r", "b"], false),
            found(&["r", "helper.py"], true),
            found(&["r", "a_test.py"], true),
            found(&["r", ".py"], true),
        ],
        &default_python_files(),
    );
    assert_eq!(
        files,
        vec![
            texts(&["r", "a_test.py"]),
            texts(&["r", "b", "test_x.py"]),
            texts(&["r", "b-c", "test_y.py"]),
        ]
    );
    let mut as_paths: Vec<PathBuf> = files.iter().map(|names| names.iter().collect()).collect();
    let before = as_paths.clone();
    as_paths.sort();
    assert_eq!(as_paths, before);
}

#[test]
fn listed_files_do_not_depend_on_the_order_of_the_search() {
    let found = |names: &[&str], is_file: bool| FoundPath {
        names: texts(names),
        is_file,
    };
    let list = |order: &[usize]| {
        let all: Vec<FoundPath> = order
            .iter()
            .map(|i| match i {
                0 => found(&["r", "test_b.py"], true),
                1 => found(&["r", "a", "test_c.py"], true),
                2 => found(&["r", "notes.txt"], true),
                _ => found(&["r", "test_b.py"], true),
            })
            .collect();
        collect_test_files(all, &default_python_files())
    };
    let expected = vec![
        texts(&["r", "a", "test_c.py"]),
        texts(&["r", "test_b.py"]),
        texts(&["r", "test_b.py"]),
    ];
    assert_eq!(list(&[0, 1, 2, 3]), expected);
    assert_eq!(list(&[3, 2, 1, 0]), expected);
    assert_eq!(list(&[1, 3, 0]), expected);
}

#[test]
fn exit_code_tells_good_runs_from_others() {
    let result = |outcome: &str| TestResult {
        nodeid: "a.py::test".to_string(),
        outcome: outcome.to_string(),
        duration_bits: 0,
        stdout: String::new(),
        stderr: String::new(),
        error: None,
        error_type: None,
    };
    let code = |outcomes: &[&str], codes: &[Option<i32>]| {
        let lists = vec![outcomes.iter().map(|outcome| result(outcome)).collect()];
        let ends: Vec<WorkerEnd> = codes
            .iter()
            .enumerate()
            .map(|(id, code)| worker_end(id, *code, ""))
            .collect();
        run_exit_code(&aggregate_results(&lists), &worker_errors(&ends))
    };
    assert_eq!(code(&["passed", "skipped"], &[Some(0), Some(1)]), 0);
    assert_eq!(code(&[], &[]), 0);
    assert_eq!(code(&["passed", "failed"], &[Some(0)]), 1);
    assert_eq!(code(&["error"], &[Some(0)]), 1);
    assert_eq!(code(&["odd"], &[Some(0)]), 1);
    assert_eq!(code(&["passed"], &[Some(0), Some(2)]), 1);
    assert_eq!(code(&["passed"], &[None]), 1);
}
