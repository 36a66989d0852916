use rtest::config::read_pytest_config;

#[test]
fn test_read_pytest_config_with_testpaths() {
    let content = r#"
[tool.pytest.ini_options]
testpaths = ["tests", "test"]
"#;

    let config = read_pytest_config(Some(content));
    assert_eq!(config.testpaths.len(), 2);
    assert_eq!(config.testpaths[0], "tests");
    assert_eq!(config.testpaths[1], "test");
}

#[test]
fn test_read_pytest_config_no_file() {
    let config = read_pytest_config(None);
    assert!(config.testpaths.is_empty());
    assert!(config.python_files.is_empty());
    assert!(config.python_classes.is_empty());
    assert!(config.python_functions.is_empty());
}

#[test]
fn test_read_pytest_config_no_testpaths() {
    let content = r#"
[tool.pytest.ini_options]
filterwarnings = ["error"]
"#;

    let config = read_pytest_config(Some(content));
    assert!(config.testpaths.is_empty());
    assert!(config.python_files.is_empty());
    assert!(config.python_classes.is_empty());
    assert!(config.python_functions.is_empty());
}

#[test]
fn test_read_pytest_config_with_python_files() {
    let content = r#"
[tool.pytest.ini_options]
python_files = ["test_*.py", "*_test.py", "check_*.py"]
"#;

    let config = read_pytest_config(Some(content));
    assert_eq!(config.python_files.len(), 3);
    assert_eq!(config.python_files[0], "test_*.py");
    assert_eq!(config.python_files[1], "*_test.py");
    assert_eq!(config.python_files[2], "check_*.py");
}

#[test]
fn test_read_pytest_config_with_python_classes() {
    let content = r#"
[tool.pytest.ini_options]
python_classes = ["Test*", "Check*", "*Suite"]
"#;

    let config = read_pytest_config(Some(content));
    assert_eq!(config.python_classes.len(), 3);
    assert_eq!(config.python_classes[0], "Test*");
    assert_eq!(config.python_classes[1], "Check*");
    assert_eq!(config.python_classes[2], "*Suite");
}

#[test]
fn test_read_pytest_config_with_python_functions() {
    let content = r#"
[tool.pytest.ini_options]
python_functions = ["test*", "check_*", "*_test"]
"#;

    let config = read_pytest_config(Some(content));
    assert_eq!(config.python_functions.len(), 3);
    assert_eq!(config.python_functions[0], "test*");
    assert_eq!(config.python_functions[1], "check_*");
    assert_eq!(config.python_functions[2], "*_test");
}

#[test]
fn settings_of_other_kinds_are_passed_over() {
    let config = read_pytest_config(Some("[tool.pytest.ini_options]\ntestpaths = \"tests\"\n"));
    assert!(config.testpaths.is_empty());
    let config =
        read_pytest_config(Some("[tool.pytest.ini_options]\ntestpaths = [1, \"a\", true]\n"));
    assert_eq!(config.testpaths, vec!["a"]);
    let config = read_pytest_config(Some("tool = 3\n"));
    assert!(config.testpaths.is_empty());
    let config = read_pytest_config(Some("no toml at all ["));
    assert!(config.testpaths.is_empty());
}
