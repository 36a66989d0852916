use rtest::cli::args::CannotExpandReport;
use rtest::collection::config::CollectionConfig;
use rtest::collection::error::{CollectionError, CollectionWarning};
use rtest::collection::nodes::{
    test_info_to_function, test_info_to_functions, Module, Node, Session, StartPath,
};
use rtest::collection::types::{Collector, IoFailure, PathInfo};
use rtest::collection::{glob_match, glob_match_any};
use rtest::collection_integration::{
    cannot_expand_records, collect_tests_rust, collect_tests_rust_with_split,
    display_collection_results, nodeid_file, simple_tests, source_has_parametrize,
    uncertain_files, Collected, CollectionErrors,
};
use rtest::python_discovery::semantic_analyzer::Discovery;
use rtest::python_discovery::{
    discover_tests_with_inheritance, CannotExpandReason, CasesExpansion, TestDiscoveryConfig,
    TestInfo,
};

fn file(relative: &str) -> PathInfo {
    PathInfo {
        path: format!("/project/{}", relative),
        relative: relative.to_string(),
        file_name: relative.rsplit('/').next().map(|s| s.to_string()),
        exists: true,
        is_dir: false,
        is_file: true,
    }
}

fn dir(relative: &str) -> PathInfo {
    PathInfo {
        is_dir: true,
        is_file: false,
        ..file(relative)
    }
}

fn missing(relative: &str) -> PathInfo {
    PathInfo {
        exists: false,
        is_file: false,
        ..file(relative)
    }
}

fn session() -> Session {
    Session::new("/project".to_string())
}

fn collect_module(module: Module, source: &str) -> Collected {
    let components: Vec<String> = module.nodeid.split('/').map(|s| s.to_string()).collect();
    let config = TestDiscoveryConfig::default();
    let outcome = match discover_tests_with_inheritance(
        &module.path,
        source,
        &config,
        &components,
        &[],
    ) {
        Ok(Discovery::Found(tests, warnings)) => {
            let (functions, warnings) = module.collect(&tests, warnings);
            let children = functions
                .into_iter()
                .map(|function| Collected {
                    node: Node::Function(function),
                    source: None,
                    outcome: Ok((Vec::new(), Vec::new())),
                })
                .collect();
            Ok((children, warnings))
        }
        Ok(Discovery::Needs(path)) => panic!("unexpected import of {:?}", path),
        Err(error) => Err(error),
    };
    Collected {
        node: Node::Module(module),
        source: Some(source.to_string()),
        outcome,
    }
}

/// Collects files of a project, given by their paths and contents.
fn collect(files: &[(&str, &str)]) -> Vec<Collected> {
    let session = session();
    let infos: Vec<PathInfo> = files.iter().map(|(path, _)| file(path)).collect();
    let (nodes, errors) = session.perform_collect(false, &infos).unwrap();
    assert!(errors.is_empty());
    nodes
        .into_iter()
        .zip(files.iter())
        .map(|(node, (_, source))| match node {
            Node::Module(module) => collect_module(module, source),
            other => panic!("expected a module, got {:?}", other),
        })
        .collect()
}

#[test]
fn test_perform_collect_returns_tuple_with_collectors_and_errors() {
    let session = session();
    let result = session.perform_collect(true, &[file("test_valid.py")]);
    assert!(result.is_ok(), "perform_collect should succeed");
    let (collectors, path_errors) = result.expect("expected Ok");
    // The valid file should produce a Module collector
    assert_eq!(
        collectors.len(),
        1,
        "should have one collector for the valid file"
    );
    assert!(
        path_errors.is_empty(),
        "should have no path errors for valid file"
    );
}

#[test]
fn test_perform_collect_explicit_nonexistent_path_returns_error() {
    let session = session();
    // Explicit args with non-existent path should return Err (FileNotFound)
    let result = session.perform_collect(true, &[missing("nonexistent.py")]);
    assert!(result.is_err());
    match result.expect_err("expected error") {
        CollectionError::FileNotFound(_) => {}
        other => panic!("expected FileNotFound, got: {:?}", other),
    }
}

#[test]
fn test_perform_collect_signature_returns_errors_vec() {
    let session = session();
    let result = session.perform_collect(true, &[file("test_a.py")]);
    let (_collectors, errors) = result.expect("should succeed");
    // With a valid file the errors vec should be empty
    assert!(errors.is_empty());
}

#[test]
fn test_collection_multiple_syntax_errors() {
    let error_files = vec![
        ("test_assert_empty.py", "assert"),
        ("test_if_missing.py", "if : ...\n    pass"),
        ("test_while_missing.py", "while : ...\n    pass"),
    ];
    let valid_content = r#"
def test_valid():
    assert True

class TestValidClass:
    def test_method(self):
        pass
"#;
    let mut files = error_files.clone();
    files.push(("test_valid.py", valid_content));

    let result = collect_tests_rust(Ok((collect(&files), Vec::new())));
    assert!(
        result.is_ok(),
        "Should not fail immediately on syntax errors"
    );

    let (test_nodes, errors) = result.unwrap();

    assert_eq!(test_nodes.len(), 2, "Should find tests from valid file");
    assert!(test_nodes
        .iter()
        .any(|n| n.contains("test_valid.py::test_valid")));
    assert!(test_nodes
        .iter()
        .any(|n| n.contains("test_valid.py::TestValidClass::test_method")));

    assert_eq!(errors.errors.len(), 3, "Should collect all 3 syntax errors");

    for (filename, _) in &error_files {
        assert!(
            errors
                .errors
                .iter()
                .any(|(nodeid, _)| nodeid.contains(filename)),
            "Should have error for {filename}"
        );
    }

    for (_, error) in &errors.errors {
        assert!(
            matches!(error, CollectionError::ParseError(_)),
            "All errors should be parse errors"
        );
    }

    let display =
        display_collection_results(&test_nodes, &errors, &CannotExpandReport::Stdout);
    assert!(display
        .stdout
        .iter()
        .any(|line| line == "  test_valid.py::test_valid"));
    assert!(display.stderr.is_empty());
}

#[test]
fn glob_patterns_select_names() {
    assert!(glob_match("test_*.py", "test_a.py"));
    assert!(!glob_match("test_*.py", "a_test.py"));
    assert!(glob_match("*.egg", "x.egg"));
    assert!(glob_match("te?t", "text"));
    assert!(glob_match("[ab]c", "bc"));
    assert!(!glob_match("[!ab]c", "bc"));
    assert!(glob_match("venv", "venv"));
    assert!(!glob_match("venv", "venv2"));
    assert!(glob_match("a/*.py", "a/b.py"));
    assert!(glob_match_any(
        &["x*".to_string(), "*y".to_string()],
        "why"
    ));
    assert!(!glob_match_any(&[], "why"));
}

#[test]
fn refused_globs_fall_back_to_simple_matching() {
    // `***` and an open bracket are no valid patterns.
    assert!(glob_match("***", "a*b"));
    assert!(!glob_match("***", "ab"));
    assert!(glob_match("[abc*", "[abcd"));
    assert!(glob_match("*[abc", "x[abc"));
    assert!(glob_match("[abc", "[abc"));
    assert!(!glob_match("[abc", "a"));
}

#[test]
fn session_ignores_caches_and_configured_directories() {
    let session = session();
    assert!(session.should_ignore_path(&dir("__pycache__")).unwrap());
    assert!(session.should_ignore_path(&dir("a/build")).unwrap());
    assert!(session.should_ignore_path(&dir(".git")).unwrap());
    assert!(!session.should_ignore_path(&dir("tests")).unwrap());
    assert!(!session.should_ignore_path(&file("test_a.py")).unwrap());
    let mut ignoring = Session::new("/project".to_string());
    ignoring.config.ignore_patterns = vec!["slow".to_string()];
    assert!(ignoring.should_ignore_path(&file("slow/test_a.py")).unwrap());
}

#[test]
fn session_makes_nodes_of_directories_and_test_files() {
    let session = session();
    let paths = [
        dir("tests"),
        file("test_a.py"),
        file("helper.py"),
        file("b_test.py"),
        dir("__pycache__"),
    ];
    let (nodes, errors) = session.perform_collect(false, &paths).unwrap();
    assert!(errors.is_empty());
    let ids: Vec<&str> = nodes.iter().map(|node| node.nodeid()).collect();
    assert_eq!(ids, vec!["tests", "test_a.py", "b_test.py"]);
    assert!(matches!(nodes[0], Node::Directory(_)));
    assert!(matches!(nodes[1], Node::Module(_)));
    assert_eq!(nodes[1].parent(), Some(""));
    assert_eq!(nodes[1].path(), "/project/test_a.py");
    assert!(!nodes[1].is_item());
}

#[test]
fn session_starts_at_arguments_then_configuration_then_root() {
    let session = session();
    let args = ["a.py".to_string()];
    let configured = ["tests".to_string()];
    assert!(matches!(
        session.resolve_args(&args, &configured).as_slice(),
        [StartPath::FromRoot(path)] if path == "a.py"
    ));
    assert!(matches!(
        session.resolve_args(&[], &configured).as_slice(),
        [StartPath::FromRoot(path)] if path == "tests"
    ));
    assert!(matches!(
        session.resolve_args(&[], &[]).as_slice(),
        [StartPath::Root]
    ));
    let mut own = Session::new("/project".to_string());
    own.config.testpaths = vec!["unit".to_string()];
    assert!(matches!(
        own.resolve_args(&[], &[]).as_slice(),
        [StartPath::Plain(path)] if path == "unit"
    ));
}

#[test]
fn directory_passes_over_what_may_not_be_read() {
    let session = session();
    let directory = match session.collect_path(&dir("tests")).unwrap() {
        Some(Node::Directory(directory)) => directory,
        other => panic!("expected a directory, got {:?}", other),
    };
    let denied = IoFailure {
        permission_denied: true,
        message: "denied".to_string(),
    };
    let (nodes, warnings) = directory
        .collect(
            &session,
            &Ok(vec![Err(denied), Ok(file("tests/test_a.py"))]),
        )
        .unwrap();
    assert_eq!(nodes.len(), 1);
    assert!(warnings.is_empty());

    let denied = IoFailure {
        permission_denied: true,
        message: "denied".to_string(),
    };
    let (nodes, _) = directory.collect(&session, &Err(denied)).unwrap();
    assert!(nodes.is_empty());

    let broken = IoFailure {
        permission_denied: false,
        message: "broken".to_string(),
    };
    match directory.collect(&session, &Err(broken)) {
        Err(CollectionError::IoError(message)) => assert_eq!(message, "broken"),
        other => panic!("expected an I/O error, got {:?}", other),
    }
}

#[test]
fn default_collection_configuration() {
    let config = CollectionConfig::default();
    assert_eq!(config.python_files, vec!["test_*.py", "*_test.py"]);
    assert_eq!(config.python_classes, vec!["Test*"]);
    assert_eq!(config.python_functions, vec!["test*"]);
    assert!(config.ignore_patterns.is_empty());
}

fn test_info(name: &str, class_name: Option<&str>, cases: CasesExpansion) -> TestInfo {
    TestInfo {
        name: name.to_string(),
        line: 7,
        is_method: class_name.is_some(),
        class_name: class_name.map(|s| s.to_string()),
        is_parametrized: !matches!(cases, CasesExpansion::NotDecorated),
        has_uncertain_params: matches!(cases, CasesExpansion::CannotExpand(_)),
        cases_expansion: cases,
    }
}

#[test]
fn tests_become_functions_with_node_ids() {
    let plain = test_info("test_x", Some("TestY"), CasesExpansion::NotDecorated);
    let function = test_info_to_function(&plain, "/project/a.py", "a.py");
    assert_eq!(function.nodeid, "a.py::TestY::test_x");
    assert_eq!(function.location.line, Some(7));
    assert_eq!(function.location.path, "/project/a.py");

    let config = TestDiscoveryConfig::default();
    let source = "import rtest\n@rtest.mark.cases('x', [1, 2])\ndef test_z(x): pass\n";
    let found = discover_tests_with_inheritance("a.py", source, &config, &["a.py".into()], &[]);
    match found {
        Ok(Discovery::Found(tests, warnings)) => {
            assert!(warnings.is_empty());
            let ids: Vec<String> = test_info_to_functions(&tests[0], "/project/a.py", "a.py")
                .into_iter()
                .map(|function| function.nodeid)
                .collect();
            assert_eq!(ids, vec!["a.py::test_z[1]", "a.py::test_z[2]"]);
        }
        other => panic!("unexpected {:?}", other),
    }
}

#[test]
fn unexpanded_test_is_collected_warned_of_and_recorded() {
    let source = r#"
import pytest

@pytest.mark.parametrize("value", get_data())
def test_dynamic(value):
    assert value > 0

@pytest.mark.parametrize("value", [x for x in range(3)])
def test_comprehension(value):
    assert value > 0
"#;
    let trees = collect(&[("test_a.py", source)]);
    let (nodes, errors) = collect_tests_rust(Ok((trees, Vec::new()))).unwrap();
    assert_eq!(
        nodes,
        vec!["test_a.py::test_dynamic", "test_a.py::test_comprehension"]
    );
    let messages: Vec<&str> = errors.warnings.iter().map(|w| w.message.as_str()).collect();
    assert_eq!(
        messages,
        vec![
            "warning: Cannot statically expand test cases for 'test_a.py::test_dynamic': argvalues contains function call 'get_data'",
            "warning: Cannot statically expand test cases for 'test_a.py::test_comprehension': argvalues contains a comprehension",
        ]
    );
    assert_eq!(
        cannot_expand_records(&errors.warnings),
        vec![
            "rtest-cannot-expand: test_a.py::test_dynamic",
            "rtest-cannot-expand: test_a.py::test_comprehension",
        ]
    );

    let on_stdout = display_collection_results(&nodes, &errors, &CannotExpandReport::Stdout);
    assert!(on_stdout
        .stdout
        .contains(&"rtest-cannot-expand: test_a.py::test_dynamic".to_string()));
    let on_stderr = display_collection_results(&nodes, &errors, &CannotExpandReport::Stderr);
    assert_eq!(on_stderr.stderr.len(), 2);
    let omitted = display_collection_results(&nodes, &errors, &CannotExpandReport::Omit);
    assert!(omitted.stderr.is_empty());
    assert!(!omitted
        .stdout
        .iter()
        .any(|line| line.starts_with("rtest-cannot-expand:")));
    assert!(omitted
        .stdout
        .iter()
        .any(|line| line.contains("function call 'get_data'")));
    let to_file = display_collection_results(
        &nodes,
        &errors,
        &CannotExpandReport::File("r.txt".to_string()),
    );
    assert_eq!(
        to_file.file,
        Some((
            "r.txt".to_string(),
            "rtest-cannot-expand: test_a.py::test_dynamic\nrtest-cannot-expand: test_a.py::test_comprehension\n"
                .to_string()
        ))
    );
}

#[test]
fn results_are_shown_like_pytest_shows_them() {
    let none = CollectionErrors::new();
    let display = display_collection_results(&[], &none, &CannotExpandReport::Stdout);
    assert_eq!(display.stdout, vec!["No tests collected."]);

    let one = ["a.py::test_x".to_string()];
    let display = display_collection_results(&one, &none, &CannotExpandReport::Stdout);
    assert_eq!(
        display.stdout,
        vec!["collected 1 item", "", "  a.py::test_x"]
    );

    let errors = CollectionErrors {
        errors: vec![(
            "b.py".to_string(),
            CollectionError::ParseError("bad syntax".to_string()),
        )],
        warnings: vec![CollectionWarning {
            file_path: "c.py".to_string(),
            line: 3,
            message: "odd".to_string(),
        }],
    };
    let display = display_collection_results(&one, &errors, &CannotExpandReport::Stdout);
    assert!(display
        .stdout
        .iter()
        .any(|line| line == "collected 1 item / 1 error / 1 warning"));
    assert!(display.stdout.iter().any(|line| line.contains("b.py")));
    assert!(display.stdout.iter().any(|line| line.contains("c.py:3: odd")));
}

#[test]
fn files_are_split_by_parametrize_decorators() {
    assert!(source_has_parametrize("@pytest.mark.parametrize('x', [])"));
    assert!(source_has_parametrize("@mark.parametrize('x', [])"));
    assert!(source_has_parametrize("@parametrize('x', [])"));
    assert!(!source_has_parametrize("parametrize = 1"));

    let param = "import pytest\n@pytest.mark.parametrize('x', [1])\ndef test_p(x): pass\n";
    let trees = collect(&[
        ("test_b.py", "def test_b(): pass\n"),
        ("test_p.py", param),
        ("test_a.py", "def test_a(): pass\n"),
    ]);
    let results = collect_tests_rust_with_split(Ok((trees, Vec::new()))).unwrap();
    assert_eq!(
        results.test_nodes,
        vec!["test_b.py::test_b", "test_p.py::test_p[1]", "test_a.py::test_a"]
    );
    assert_eq!(results.simple_files, vec!["test_a.py", "test_b.py"]);
    assert_eq!(results.param_files, vec!["test_p.py"]);
    assert_eq!(results.param_file_tests, vec!["test_p.py::test_p[1]"]);
    assert_eq!(
        simple_tests(&results),
        vec!["test_b.py::test_b", "test_a.py::test_a"]
    );
    assert_eq!(nodeid_file("a/b.py::T::x"), "a/b.py");
    assert_eq!(nodeid_file("plain"), "plain");
}

#[test]
fn split_passes_a_failure_on() {
    let failed = || Err(CollectionError::FileNotFound("x.py".to_string()));
    assert!(matches!(
        collect_tests_rust(failed()),
        Err(CollectionError::FileNotFound(path)) if path == "x.py"
    ));
    assert!(collect_tests_rust_with_split(failed()).is_err());
}

#[test]
fn uncertain_files_are_those_of_unexpanded_tests() {
    let dynamic = "import pytest\n@pytest.mark.parametrize('x', f())\ndef test_d(x): pass\n";
    let fixed = "import pytest\n@pytest.mark.parametrize('x', [1])\ndef test_f(x): pass\n";
    let trees = collect(&[
        ("test_z.py", dynamic),
        ("test_f.py", fixed),
        ("test_a.py", "def test_a(): pass\n"),
    ]);
    assert_eq!(uncertain_files(&trees, false), vec!["test_z.py"]);
    assert_eq!(uncertain_files(&trees, true), vec!["test_f.py", "test_z.py"]);
}

#[test]
fn errors_and_warnings_in_words() {
    let words = |error: CollectionError| error.describe();
    assert_eq!(words(CollectionError::ParseError("p".into())), "p");
    assert_eq!(
        words(CollectionError::ImportError("i".into())),
        "ImportError: i"
    );
    assert_eq!(words(CollectionError::IoError("io".into())), "IO Error: io");
    assert_eq!(words(CollectionError::SkipError("s".into())), "Skipped: s");
    assert_eq!(
        words(CollectionError::FileNotFound("f".into())),
        "file or directory not found: f"
    );
    let warning = CollectionWarning {
        file_path: "a.py".into(),
        line: 0,
        message: "m".into(),
    };
    assert_eq!(warning.describe(), "m");
    let reason = CannotExpandReason::UnsupportedExpression("x".into());
    assert_eq!(
        reason.describe(),
        "argvalues contains unsupported expression: x"
    );
}

#[test]
fn splitting_gathers_the_same_tests_and_no_warnings() {
    let sources = [
        ("test_a.py", "class TestA:\n    def __init__(self): pass\n    def test_x(self): pass\n"),
        ("test_b.py", "def test_b(): pass\n"),
        ("test_c.py", "def broken(:\n"),
    ];
    let (nodes, errors) = collect_tests_rust(Ok((collect(&sources), Vec::new()))).unwrap();
    let split = collect_tests_rust_with_split(Ok((collect(&sources), Vec::new()))).unwrap();
    assert_eq!(split.test_nodes, nodes);
    assert_eq!(split.errors.errors.len(), 1);
    assert_eq!(errors.errors.len(), 1);
    assert_eq!(split.errors.errors[0].0, errors.errors[0].0);
    assert_eq!(errors.warnings.len(), 1);
    assert!(split.errors.warnings.is_empty());
}

#[test]
fn joined_lists_of_globs_accept_what_either_does() {
    let list = |patterns: &[&str]| -> Vec<String> {
        patterns.iter().map(|s| s.to_string()).collect()
    };
    let first = list(&["test_*.py"]);
    let second = list(&["*_test.py", "conf?.py"]);
    let both = list(&["test_*.py", "*_test.py", "conf?.py"]);
    for name in ["test_a.py", "a_test.py", "conf1.py", "other.py", ""] {
        assert_eq!(
            glob_match_any(&both, name),
            glob_match_any(&first, name) || glob_match_any(&second, name)
        );
        assert_eq!(glob_match_any(&first, name), glob_match("test_*.py", name));
        assert!(!glob_match_any(&[], name));
    }
}

#[test]
fn a_whole_collection_is_parted_by_its_files() {
    let param = "import pytest\n@pytest.mark.parametrize('x', [1, 2])\ndef test_p(x): pass\ndef test_q(): pass\n";
    let sources = [
        ("test_a.py", "def test_a(): pass\n"),
        ("test_p.py", param),
        ("test_a.py", "def test_a(): pass\n"),
        ("test_p.py", param),
    ];
    let split = collect_tests_rust_with_split(Ok((collect(&sources), Vec::new()))).unwrap();
    assert!(split.simple_files.iter().all(|file| !split.param_files.contains(file)));
    let expected: Vec<String> = split
        .test_nodes
        .iter()
        .filter(|node| split.param_files.contains(&nodeid_file(node)))
        .cloned()
        .collect();
    assert_eq!(split.param_file_tests, expected);
    assert_eq!(expected.len(), 6);
    assert_eq!(simple_tests(&split).len() + expected.len(), split.test_nodes.len());
}
