use rtest::python_discovery::pattern;

#[test]
fn test_pattern_matching() {
    assert!(pattern::matches("test_*", "test_foo"));
    assert!(pattern::matches("test_*", "test_"));
    assert!(!pattern::matches("test_*", "foo_test"));

    assert!(pattern::matches("Test*", "TestCase"));
    assert!(pattern::matches("Test*", "Test"));
    assert!(!pattern::matches("Test*", "MyTest"));

    assert!(pattern::matches("*_test", "foo_test"));
    assert!(!pattern::matches("*_test", "test_foo"));
}

#[test]
fn every_wildcard_is_any_text() {
    assert!(pattern::matches("*_test_*", "a_test_b"));
    assert!(pattern::matches("*_test_*", "_test_"));
    assert!(!pattern::matches("*_test_*", "a_testb"));
    assert!(pattern::matches("a*b*c", "a1b2b3c"));
    assert!(pattern::matches("a*b*c", "abc"));
    assert!(!pattern::matches("a*b*c", "acb"));
    assert!(pattern::matches("test*case", "test_my_case"));
    assert!(!pattern::matches("test*case", "test_my_cases"));
    assert!(pattern::matches("*", ""));
    assert!(pattern::matches("**", "x"));
    assert!(pattern::matches("", ""));
    assert!(!pattern::matches("", "x"));
    assert!(!pattern::matches("x", "X"));
}

#[test]
fn a_list_of_patterns_accepts_what_one_of_them_does() {
    let patterns: Vec<String> = vec!["test_*".to_string(), "*_spec_*".to_string()];
    assert!(pattern::matches_any(&patterns, "test_a"));
    assert!(pattern::matches_any(&patterns, "a_spec_b"));
    assert!(!pattern::matches_any(&patterns, "a_spec"));
    assert!(!pattern::matches_any(&[], "test_a"));
}
