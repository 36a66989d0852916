use rtest::collection::error::{CollectionError, CollectionWarning};
use rtest::python_discovery::discovery::path_to_module_path;
use rtest::python_discovery::module_resolver::FoundSource;
use rtest::python_discovery::parser::parse;
use rtest::python_discovery::semantic_analyzer::{format_base_class_expr, Discovery};
use rtest::python_discovery::syntax::PyStmt;
use rtest::python_discovery::visitor::TestDiscoveryVisitor;
use rtest::python_discovery::{
    discover_tests_with_inheritance, CasesExpansion, ModuleResolver, TestDiscoveryConfig, TestInfo,
};

fn names(list: &[&str]) -> Vec<String> {
    list.iter().map(|s| s.to_string()).collect()
}

type Found = Result<(Vec<TestInfo>, Vec<CollectionWarning>), CollectionError>;

/// Discovers the tests of one file of a project that is given by its files.
fn discover(files: &[(&str, &str)], file: &str) -> Found {
    let config = TestDiscoveryConfig::default();
    let source = files.iter().find(|(name, _)| *name == file).unwrap().1;
    let components: Vec<String> = file.split('/').map(|s| s.to_string()).collect();
    let mut resolver = ModuleResolver::new(Vec::new(), "").unwrap();
    for _ in 0..100 {
        match discover_tests_with_inheritance(file, source, &config, &components, &resolver.loads)? {
            Discovery::Found(tests, warnings) => return Ok((tests, warnings)),
            Discovery::Needs(module) => {
                let mut found = None;
                if let Ok(places) = resolver.resolve_with_search_paths(&module) {
                    for place in places {
                        let path = place[1..].join("/");
                        if found.is_none() {
                            if let Some((_, contents)) = files.iter().find(|(n, _)| *n == path) {
                                found = Some(FoundSource {
                                    path,
                                    contents: Ok(contents.to_string()),
                                });
                            }
                        }
                    }
                }
                let _ = resolver.resolve_and_load(&module, found);
            }
        }
    }
    panic!("discovery does not end")
}

fn ids(test: &TestInfo) -> Vec<String> {
    match &test.cases_expansion {
        CasesExpansion::Expanded(cases) => cases.iter().map(|c| c.case_id.clone()).collect(),
        CasesExpansion::NotDecorated => Vec::new(),
        CasesExpansion::CannotExpand(reason) => vec![format!("? {}", reason.describe())],
    }
}

fn only(source: &str) -> TestInfo {
    let (mut tests, _) = discover(&[("test_a.py", source)], "test_a.py").unwrap();
    assert_eq!(tests.len(), 1);
    tests.remove(0)
}

#[test]
fn test_cross_module_inheritance() {
    // Parent test module
    let parent_module = r#"
class TestBase:
    def test_base_method(self):
        pass
        
    def test_another_base_method(self):
        pass
"#;

    // Child test module that imports from parent
    let child_module = r#"
from tests.test_base import TestBase

class TestDerived(TestBase):
    def test_derived_method(self):
        pass
"#;
    let (tests, _warnings) = discover(
        &[
            ("tests/test_base.py", parent_module),
            ("tests/test_child.py", child_module),
        ],
        "tests/test_child.py",
    )
    .unwrap();

    // Should find 3 tests: 2 inherited from TestBase + 1 from TestDerived
    assert_eq!(tests.len(), 3);

    let method_names: Vec<&str> = tests.iter().map(|t| t.name.as_str()).collect();
    assert!(method_names.contains(&"test_base_method"));
    assert!(method_names.contains(&"test_another_base_method"));
    assert!(method_names.contains(&"test_derived_method"));

    // All should be under TestDerived class
    assert!(tests
        .iter()
        .all(|t| t.class_name.as_ref().map_or(false, |c| c == "TestDerived")));
}

#[test]
fn functions_come_before_classes() {
    let source = r#"
class TestA:
    def test_m(self): pass

def test_f(): pass

def helper(): pass
"#;
    let (tests, warnings) = discover(&[("test_a.py", source)], "test_a.py").unwrap();
    let found: Vec<&str> = tests.iter().map(|t| t.name.as_str()).collect();
    assert_eq!(found, vec!["test_f", "test_m"]);
    assert!(!tests[0].is_method && tests[1].is_method);
    assert!(warnings.is_empty());
}

#[test]
fn class_with_constructor_is_skipped_with_a_warning() {
    let source = r#"
class TestA:
    def __init__(self): pass
    def test_m(self): pass

class TestB(TestA):
    def test_n(self): pass
"#;
    let (tests, warnings) = discover(&[("test_a.py", source)], "test_a.py").unwrap();
    assert!(tests.is_empty());
    let messages: Vec<&str> = warnings.iter().map(|w| w.message.as_str()).collect();
    assert_eq!(
        messages,
        vec![
            "cannot collect test class 'TestA' because it has a __init__ constructor",
            "cannot collect test class 'TestB' because it has a __init__ constructor",
        ]
    );
}

#[test]
fn overridden_tests_are_not_inherited() {
    let source = r#"
import pytest

class TestBase:
    @pytest.mark.parametrize("x", [1, 2])
    def test_kept(self, x): pass
    def test_changed(self): pass

@pytest.mark.parametrize("y", ["a"])
class TestChild(TestBase):
    def test_changed(self): pass
"#;
    let (tests, _) = discover(&[("test_a.py", source)], "test_a.py").unwrap();
    let child: Vec<&TestInfo> = tests
        .iter()
        .filter(|t| t.class_name.as_deref() == Some("TestChild"))
        .collect();
    assert_eq!(child.len(), 2);
    assert_eq!(child[0].name, "test_kept");
    // The inherited test has the decorators of the inheriting class.
    assert_eq!(ids(child[0]), vec!["1-a", "2-a"]);
    assert_eq!(child[1].name, "test_changed");
    assert_eq!(ids(child[1]), vec!["a"]);
}

#[test]
fn circular_inheritance_is_an_error() {
    let source = r#"
class TestA(TestB):
    def test_a(self): pass

class TestB(TestA):
    def test_b(self): pass
"#;
    match discover(&[("test_a.py", source)], "test_a.py") {
        Err(CollectionError::ParseError(message)) => {
            assert!(message.starts_with("Circular inheritance detected in class hierarchy"));
        }
        other => panic!("unexpected {:?}", other),
    }
}

#[test]
fn diamonds_are_no_circles() {
    let source = r#"
class TestTop:
    def test_top(self): pass
class TestLeft(TestTop):
    def test_left(self): pass
class TestRight(TestTop):
    def test_right(self): pass
class TestBottom(TestLeft, TestRight):
    pass
"#;
    let (tests, _) = discover(&[("test_a.py", source)], "test_a.py").unwrap();
    let bottom: Vec<&str> = tests
        .iter()
        .filter(|t| t.class_name.as_deref() == Some("TestBottom"))
        .map(|t| t.name.as_str())
        .collect();
    assert_eq!(bottom, vec!["test_top", "test_left", "test_top", "test_right"]);
}

#[test]
fn bases_of_other_kinds() {
    let source = r#"
import unittest
from abc import ABC
from .helpers import Base as B
import pkg.mixins as mixins
import unknown

class TestStd(unittest.TestCase, ABC):
    def test_std(self): pass
class TestRelative(B):
    def test_relative(self): pass
class TestModule(mixins.Mixin[int]):
    def test_module(self): pass
class TestUnknown(unknown.Thing):
    def test_unknown(self): pass
class TestOdd(make_base()):
    def test_odd(self): pass
"#;
    let files = [
        ("pkg/test_a.py", source),
        (
            "pkg/helpers.py",
            "class Base:\n    def test_base(self): pass\n",
        ),
        (
            "pkg/mixins.py",
            "class Mixin:\n    def test_mixin(self): pass\n",
        ),
    ];
    let (tests, _) = discover(&files, "pkg/test_a.py").unwrap();
    let found: Vec<&str> = tests.iter().map(|t| t.name.as_str()).collect();
    assert_eq!(
        found,
        vec![
            "test_std",
            "test_base",
            "test_relative",
            "test_mixin",
            "test_module",
            "test_unknown",
            "test_odd",
        ]
    );
}

#[test]
fn broken_file_and_broken_import() {
    assert!(matches!(
        discover(&[("test_a.py", "def (")], "test_a.py"),
        Err(CollectionError::ParseError(message)) if message.starts_with("Failed to parse test_a.py: ")
    ));
    let files = [
        (
            "test_a.py",
            "from base import TestBase\nclass TestA(TestBase):\n    def test_a(self): pass\n",
        ),
        ("base.py", "def ("),
    ];
    assert!(matches!(
        discover(&files, "test_a.py"),
        Err(CollectionError::ParseError(message)) if message.starts_with("Failed to parse base.py: ")
    ));
}

#[test]
fn documented_constants_are_resolved() {
    let source = r#"
from enum import Enum
import rtest

class Color(Enum):
    RED = 1
    GREEN = 2

DATA = [1, 2, 3]

@rtest.mark.cases("value", DATA)
def test_module_constant(value):
    assert value > 0

@rtest.mark.cases("color", [Color.RED, Color.GREEN])
def test_enum_values(color):
    assert color.value in [1, 2]
"#;
    let (tests, _) = discover(&[("test_a.py", source)], "test_a.py").unwrap();
    assert_eq!(ids(&tests[0]), vec!["DATA[1]", "DATA[2]", "DATA[3]"]);
    assert_eq!(ids(&tests[1]), vec!["Color.RED", "Color.GREEN"]);
}

#[test]
fn parametrize_shows_runtime_values() {
    let source = r#"
from enum import Enum
import pytest

class Color(Enum):
    RED = 1

class Config:
    MAX_SIZE = 10
    class Inner:
        VALUE = "v"

class Derived(Config):
    pass

@pytest.mark.parametrize("x", [
    Config.MAX_SIZE, Color.RED, Config.Inner.VALUE, Derived.MAX_SIZE, None, True, -2, 1.5,
])
def test_values(x): pass
"#;
    let (tests, _) = discover(&[("test_a.py", source)], "test_a.py").unwrap();
    assert_eq!(
        ids(&tests[0]),
        vec!["10", "Color.RED", "v", "10_1", "None", "True", "-2", "1.5"]
    );
    let cases = source
        .replace("import pytest", "import rtest")
        .replace("@pytest.mark.parametrize", "@rtest.mark.cases");
    let (tests, _) = discover(&[("test_a.py", cases.as_str())], "test_a.py").unwrap();
    assert_eq!(
        ids(&tests[0])[0..4],
        [
            "Config.MAX_SIZE",
            "Color.RED",
            "Config.Inner.VALUE",
            "Derived.MAX_SIZE"
        ]
    );
}

#[test]
fn imported_constants_are_resolved() {
    let source = r#"
import pytest
from consts import DATA, Color
from .near import LOCAL
import consts as c

@pytest.mark.parametrize("x", DATA)
def test_data(x): pass

@pytest.mark.parametrize("x", [Color.RED, LOCAL, c.NUMBER])
def test_mixed(x): pass
"#;
    let files = [
        ("test_a.py", source),
        (
            "consts.py",
            "from enum import Enum\nfrom deeper import NUMBER\nDATA = ['a', 'b']\nclass Color(Enum):\n    RED = 1\n",
        ),
        ("deeper.py", "NUMBER = 7\n"),
        ("near.py", "LOCAL = 'near'\n"),
    ];
    let (tests, _) = discover(&files, "test_a.py").unwrap();
    assert_eq!(ids(&tests[0]), vec!["a", "b"]);
    assert_eq!(ids(&tests[1]), vec!["Color.RED", "near", "7"]);
}

#[test]
fn pytest_param_gives_ids() {
    let test = only(
        r#"
import pytest
@pytest.mark.parametrize("x,y", [
    pytest.param(1, 2, id="first"),
    pytest.param(3, 4),
    (f(), 6),
])
def test_x(x, y): pass
"#,
    );
    assert_eq!(ids(&test), vec!["first", "3-4", "x2-6"]);
}

#[test]
fn custom_ids_are_used() {
    let test = only(
        r#"
import pytest
@pytest.mark.parametrize("x", [1, 2, 3], ids=["one", "two"])
def test_x(x): pass
"#,
    );
    assert_eq!(ids(&test), vec!["one", "two", "2"]);
    let test = only(
        r#"
import pytest
@pytest.mark.parametrize("x", [1, 2], ids=str)
def test_x(x): pass
"#,
    );
    assert_eq!(
        ids(&test),
        vec!["? argvalues contains unsupported expression: ids= is not a static list of strings"]
    );
}

#[test]
fn obstacles_are_named() {
    let reason = |decorator: &str| {
        ids(&only(&format!(
            "import pytest\n{}\ndef test_x(x): pass\n",
            decorator
        )))
        .remove(0)
    };
    assert_eq!(
        reason("@pytest.mark.parametrize('x', get_data())"),
        "? argvalues contains function call 'get_data'"
    );
    assert_eq!(
        reason("@pytest.mark.parametrize('x', [y for y in z])"),
        "? argvalues contains a comprehension"
    );
    assert_eq!(
        reason("@pytest.mark.parametrize('x', UNKNOWN)"),
        "? argvalues references variable 'UNKNOWN'"
    );
    assert_eq!(
        reason("@pytest.mark.parametrize('x')"),
        "? argvalues contains unsupported expression: missing required arguments"
    );
    assert_eq!(
        reason("@pytest.mark.parametrize('', [1])"),
        "? argvalues contains unsupported expression: empty argnames"
    );
    assert_eq!(
        reason("@pytest.mark.parametrize('x', [1j])"),
        "? argvalues contains unsupported expression: complex numbers"
    );
    assert_eq!(
        reason("@pytest.mark.parametrize('x', {1: 2})"),
        "? argvalues contains unsupported expression: argvalues must be a list or tuple"
    );
}

#[test]
fn module_paths_of_files() {
    assert_eq!(
        path_to_module_path(&names(&["a", "b", "c.py"])),
        vec!["a", "b", "c"]
    );
    assert_eq!(
        path_to_module_path(&names(&["a", "__init__.py"])),
        vec!["a"]
    );
    assert_eq!(path_to_module_path(&names(&["plain"])), vec!["plain"]);
    assert!(path_to_module_path(&[]).is_empty());
}

#[test]
fn visitor_finds_tests_of_a_single_file() {
    let module = parse(
        r#"
import pytest
DATA = [1, 2]

@pytest.mark.parametrize("x", DATA)
def test_f(x): pass

class TestBase:
    def test_b(self): pass

class TestChild(TestBase):
    def test_c(self): pass
"#,
    )
    .unwrap();
    let config = TestDiscoveryConfig::default();
    let mut visitor = TestDiscoveryVisitor::new(&config);
    visitor.visit_module(&module);
    let tests = visitor.into_tests();
    let found: Vec<(&str, Option<&str>)> = tests
        .iter()
        .map(|t| (t.name.as_str(), t.class_name.as_deref()))
        .collect();
    assert_eq!(
        found,
        vec![
            ("test_f", None),
            ("test_b", Some("TestBase")),
            ("test_b", Some("TestChild")),
            ("test_c", Some("TestChild")),
        ]
    );
    assert_eq!(ids(&tests[0]), vec!["1", "2"]);
}

#[test]
fn string_ids_are_escaped() {
    let test = only("import pytest\n@pytest.mark.parametrize('x', ['☃', 'a\\nb', ''])\ndef test_x(x): pass\n");
    assert_eq!(ids(&test), vec!["\\u2603", "a\\nb", ""]);
}

#[test]
fn base_classes_in_words() {
    let words = |source: &str| match &parse(source).unwrap().body[0] {
        PyStmt::Expr(expr) => format_base_class_expr(expr),
        other => panic!("unexpected {:?}", other),
    };
    assert_eq!(words("Base"), "Base");
    assert_eq!(words("pkg.Base"), "pkg.Base");
    assert_eq!(words("a.b.Base"), "<complex>.Base");
    assert_eq!(words("f()"), "<unresolvable>");
}

#[test]
fn long_hierarchies_are_followed_to_the_end() {
    let mut source = String::from("import pytest\nclass Test0:\n    VALUE = 7\n    def test_first(self): pass\n");
    for i in 1..40 {
        source.push_str(&format!("class Test{}(Test{}):\n    pass\n", i, i - 1));
    }
    source.push_str("@pytest.mark.parametrize('x', [Test39.VALUE])\ndef test_value(x): pass\n");
    let (tests, _) = discover(&[("test_a.py", source.as_str())], "test_a.py").unwrap();
    assert_eq!(ids(&tests[0]), vec!["7"]);
    let last = tests.last().unwrap();
    assert_eq!(last.name, "test_first");
    assert_eq!(last.class_name.as_deref(), Some("Test39"));
    assert_eq!(tests.len(), 41);
}

#[test]
fn modules_are_asked_for_once() {
    let files = [
        (
            "test_a.py",
            "import pytest\nfrom one import X\nfrom two import Base\nclass TestA(Base):\n    @pytest.mark.parametrize('x', X)\n    def test_a(self, x): pass\n",
        ),
        ("one.py", "from two import Y\nX = [Y]\n"),
        ("two.py", "from three import Root\nY = 'y'\nclass Base(Root):\n    pass\n"),
        ("three.py", "class Root:\n    def test_root(self): pass\n"),
    ];
    let config = TestDiscoveryConfig::default();
    let mut resolver = ModuleResolver::new(Vec::new(), "").unwrap();
    let mut asked: Vec<Vec<String>> = Vec::new();
    let tests = loop {
        let found = discover_tests_with_inheritance(
            "test_a.py",
            files[0].1,
            &config,
            &names(&["test_a.py"]),
            &resolver.loads,
        )
        .unwrap();
        match found {
            Discovery::Found(tests, _) => break tests,
            Discovery::Needs(module) => {
                assert!(!asked.contains(&module));
                let name = format!("{}.py", module.join("/"));
                let source = files.iter().find(|(n, _)| *n == name).map(|(n, contents)| {
                    FoundSource {
                        path: n.to_string(),
                        contents: Ok(contents.to_string()),
                    }
                });
                let _ = resolver.resolve_and_load(&module, source);
                asked.push(module);
            }
        }
    };
    assert_eq!(asked.len(), 3);
    let found: Vec<&str> = tests.iter().map(|t| t.name.as_str()).collect();
    assert_eq!(found, vec!["test_root", "test_a"]);
    assert_eq!(ids(&tests[1]), vec!["y"]);
}

#[test]
fn negative_numbers_keep_their_sign_in_ids() {
    let test = only(
        "import rtest\n@rtest.mark.cases('x,y,z', [(-5, 5, 0), (f(), -1, {}), ([], -1.5, 2)])\ndef test_x(x, y, z): pass\n",
    );
    assert_eq!(ids(&test), vec!["-5-5-0", "x1--1-z1", "--1.5-2"]);
    let test = only(
        "import pytest\n@pytest.mark.parametrize('x,y,z', [(-5, 5, 0), (f(), -1, {}), ([], -1.5, 2)])\ndef test_x(x, y, z): pass\n",
    );
    assert_eq!(ids(&test), vec!["-5-5-0", "x1--1-z1", "x2--1.5-2"]);
}

#[test]
fn explicit_ids_stay_as_written() {
    let test = only(
        "import pytest\n@pytest.mark.parametrize('x,y', [pytest.param(1, 2, id='-neg'), pytest.param(-1, f()), pytest.param(1, 2, id='a--b')])\ndef test_x(x, y): pass\n",
    );
    assert_eq!(ids(&test), vec!["-neg", "-1-y1", "a--b"]);
    let test = only(
        "import rtest\n@rtest.mark.cases('x,y', [pytest.param(1, 2, id='-neg'), (pytest.param(f(), id='-'), 2)])\ndef test_x(x, y): pass\n",
    );
    assert_eq!(ids(&test), vec!["-neg", "--2"]);
}

#[test]
fn numbers_show_their_python_texts() {
    let test = only(
        "import pytest\nDATA = [2.0, -1e16, 99999999999999999999]\n@pytest.mark.parametrize('x', DATA)\ndef test_x(x): pass\n",
    );
    assert_eq!(ids(&test), vec!["2.0", "-1e+16", "99999999999999999999"]);
    let test = only(
        "import pytest\n@pytest.mark.parametrize('x', [2.0, -0.0, 1e-7, 1e999, 18446744073709551615])\ndef test_x(x): pass\n",
    );
    assert_eq!(
        ids(&test),
        vec!["2.0", "-0.0", "1e-07", "inf", "18446744073709551615"]
    );
}

#[test]
fn members_of_nested_enums_are_members() {
    let source = "import pytest\nfrom enum import Enum\nclass Outer:\n    class Color(Enum):\n        RED = 1\n    class Sub(Color):\n        pass\n    class Plain:\n        RED = 3\n@pytest.mark.parametrize('x', [Outer.Color.RED, Outer.Sub.RED, Outer.Plain.RED])\ndef test_x(x): pass\n";
    let test = only(source);
    assert_eq!(ids(&test), vec!["Color.RED", "Sub.RED", "3"]);
}

#[test]
fn large_integers_show_their_digits() {
    let test = only(
        "import pytest\n@pytest.mark.parametrize('x', [-9223372036854775808, 0x1_0000_0000_0000_0000, -99999999999999999999, 1_000_000_000_000_000_000_000])\ndef test_x(x): pass\n",
    );
    assert_eq!(
        ids(&test),
        vec![
            "-9223372036854775808",
            "18446744073709551616",
            "-99999999999999999999",
            "1000000000000000000000"
        ]
    );
    let test = only(
        "import pytest\nLOW = [-9223372036854775808]\n@pytest.mark.parametrize('x', LOW)\ndef test_x(x): pass\n",
    );
    assert_eq!(ids(&test), vec!["-9223372036854775808"]);
}

#[test]
fn constants_without_a_text_keep_the_empty_id() {
    let test = only(
        "import pytest\nDATA = ['', 'a', ('b', 1)]\n@pytest.mark.parametrize('x', DATA)\ndef test_x(x): pass\n",
    );
    assert_eq!(ids(&test), vec!["", "a", "x2"]);
    let test = only(
        "import pytest\nEMPTY = ''\n@pytest.mark.parametrize('x', [EMPTY, 'a'])\ndef test_x(x): pass\n",
    );
    assert_eq!(ids(&test), vec!["", "a"]);
    let test = only(
        "import pytest\nDATA = [('', 1), (2, ())]\n@pytest.mark.parametrize('x,y', DATA)\ndef test_x(x, y): pass\n",
    );
    assert_eq!(ids(&test), vec!["-1", "2-y1"]);
    let test = only(
        "import rtest\nEMPTY = ''\n@rtest.mark.cases('x', [EMPTY])\ndef test_x(x): pass\n",
    );
    assert_eq!(ids(&test), vec!["EMPTY"]);
}

#[test]
fn sequences_among_values_are_named_by_their_argument() {
    let source = "import pytest\nPAIR = (1, 2)\nNONE = ()\n@pytest.mark.parametrize('x', [PAIR, NONE, (1, 2)])\ndef test_x(x): pass\n";
    assert_eq!(ids(&only(source)), vec!["x0", "x1", "x2"]);
    let source = "import pytest\nPAIR = (1, 2)\n@pytest.mark.parametrize('x,y', [PAIR, (PAIR, 3), pytest.param(4, PAIR)])\ndef test_x(x, y): pass\n";
    assert_eq!(ids(&only(source)), vec!["1-2", "x1-3", "4-y2"]);
    let source = "import rtest\nPAIR = (1, 2)\n@rtest.mark.cases('x', [PAIR])\ndef test_x(x): pass\n";
    assert_eq!(ids(&only(source)), vec!["PAIR"]);
}
