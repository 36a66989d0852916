use rtest::python_discovery::cases::LiteralValue;
use rtest::python_discovery::constant_resolver::ConstantResolver;
use rtest::python_discovery::constants::ConstantScope;
use rtest::python_discovery::parser::parse;
use rtest::python_discovery::syntax::{PyExpr, PyModule, PyStmt};

fn parse_module(source: &str) -> PyModule {
    parse(source).unwrap()
}

fn expr_from(source: &str) -> PyExpr {
    match parse_module(source).body.remove(0) {
        PyStmt::Expr(expr) => expr,
        other => panic!("expected an expression, got {:?}", other),
    }
}

fn root(resolver: &ConstantResolver) -> &ConstantScope {
    resolver.root().unwrap()
}

#[test]
fn test_module_constant() {
    let module = parse_module("X = 42");
    let resolver = ConstantResolver::from_module(&module);

    assert_eq!(
        root(&resolver).resolve_path(&["X"]),
        Some(LiteralValue::Int(42))
    );
}

#[test]
fn test_class_constant() {
    let module = parse_module(
        r#"
class Config:
    MAX = 100
    NAME = "test"
"#,
    );
    let resolver = ConstantResolver::from_module(&module);

    assert_eq!(
        root(&resolver).resolve_path(&["Config", "MAX"]),
        Some(LiteralValue::Int(100))
    );
    assert_eq!(
        root(&resolver).resolve_path(&["Config", "NAME"]),
        Some(LiteralValue::String("test".into()))
    );
}

#[test]
fn test_nested_class() {
    let module = parse_module(
        r#"
class Outer:
    A = 1
    class Inner:
        B = 2
        class Deep:
            C = 3
"#,
    );
    let resolver = ConstantResolver::from_module(&module);

    assert_eq!(
        root(&resolver).resolve_path(&["Outer", "A"]),
        Some(LiteralValue::Int(1))
    );
    assert_eq!(
        root(&resolver).resolve_path(&["Outer", "Inner", "B"]),
        Some(LiteralValue::Int(2))
    );
    assert_eq!(
        root(&resolver).resolve_path(&["Outer", "Inner", "Deep", "C"]),
        Some(LiteralValue::Int(3))
    );
}

#[test]
fn test_resolve_expression() {
    let module = parse_module(
        r#"
X = 42
class Config:
    MAX = 100
"#,
    );
    let resolver = ConstantResolver::from_module(&module);

    let result = resolver.resolve(&expr_from("X")).unwrap();
    assert_eq!(result, Some((LiteralValue::Int(42), vec!["X".into()])));

    let result = resolver.resolve(&expr_from("Config.MAX")).unwrap();
    assert_eq!(
        result,
        Some((LiteralValue::Int(100), vec!["Config".into(), "MAX".into()]))
    );
}

#[test]
fn test_annotated_assignment() {
    let module = parse_module("X: int = 42");
    let resolver = ConstantResolver::from_module(&module);

    assert_eq!(
        root(&resolver).resolve_path(&["X"]),
        Some(LiteralValue::Int(42))
    );
}

#[test]
fn test_sequence_constant() {
    let module = parse_module("DATA = [1, 2, 3]");
    let resolver = ConstantResolver::from_module(&module);

    assert_eq!(
        root(&resolver).resolve_path(&["DATA"]),
        Some(LiteralValue::Sequence(vec![
            LiteralValue::Int(1),
            LiteralValue::Int(2),
            LiteralValue::Int(3),
        ]))
    );
}

#[test]
fn test_nonexistent_path() {
    let module = parse_module("X = 42");
    let resolver = ConstantResolver::from_module(&module);

    assert_eq!(root(&resolver).resolve_path(&["Y"]), None);
    assert_eq!(root(&resolver).resolve_path(&["X", "Y"]), None);
}

#[test]
fn test_inherited_class_member() {
    let module = parse_module(
        r#"
class Parent:
    READER = "reader"

class Role(Parent):
    ADMIN = "admin"
"#,
    );
    let resolver = ConstantResolver::from_module(&module);

    assert_eq!(
        resolver.resolve(&expr_from("Role.ADMIN")).unwrap(),
        Some((
            LiteralValue::String("admin".into()),
            vec!["Role".into(), "ADMIN".into()]
        ))
    );
    assert_eq!(
        resolver.resolve(&expr_from("Role.READER")).unwrap(),
        Some((
            LiteralValue::String("reader".into()),
            vec!["Role".into(), "READER".into()]
        ))
    );
}

#[test]
fn test_enum_member_flag() {
    let module = parse_module(
        r#"
from enum import Enum

class Color(Enum):
    RED = 1
    GREEN = 2
"#,
    );
    let resolver = ConstantResolver::from_module(&module);
    let resolved = resolver
        .resolve_in_class(None, &expr_from("Color.RED"))
        .unwrap()
        .unwrap();
    assert_eq!(
        resolved.value,
        LiteralValue::EnumMember {
            class_name: "Color".into(),
            member_name: "RED".into(),
        }
    );
    assert!(resolved.is_enum_member);
}

#[test]
fn test_sequence_of_class_attributes() {
    let module = parse_module(
        r#"
class Color:
    RED = 1
    GREEN = 2

DATA = [Color.RED, Color.GREEN]
"#,
    );
    let resolver = ConstantResolver::from_module(&module);
    assert_eq!(
        resolver.resolve(&expr_from("DATA")).unwrap(),
        Some((
            LiteralValue::Sequence(vec![LiteralValue::Int(1), LiteralValue::Int(2)]),
            vec!["DATA".into()]
        ))
    );
}

#[test]
fn test_sequence_of_enum_members() {
    let module = parse_module(
        r#"
from enum import Enum

class Color(Enum):
    RED = 1
    GREEN = 2

DATA = [Color.RED, Color.GREEN]
"#,
    );
    let resolver = ConstantResolver::from_module(&module);
    assert_eq!(
        resolver.resolve(&expr_from("DATA")).unwrap(),
        Some((
            LiteralValue::Sequence(vec![
                LiteralValue::EnumMember {
                    class_name: "Color".into(),
                    member_name: "RED".into(),
                },
                LiteralValue::EnumMember {
                    class_name: "Color".into(),
                    member_name: "GREEN".into(),
                },
            ]),
            vec!["DATA".into()]
        ))
    );
}

#[test]
fn test_enclosing_class_constant() {
    let module = parse_module(
        r#"
class TestFoo:
    PACKAGES = ["a", "b"]
"#,
    );
    let resolver = ConstantResolver::from_module(&module);
    let resolved = resolver
        .resolve_in_class(Some("TestFoo"), &expr_from("PACKAGES"))
        .unwrap()
        .unwrap();
    assert_eq!(
        resolved.value,
        LiteralValue::Sequence(vec![
            LiteralValue::String("a".into()),
            LiteralValue::String("b".into()),
        ])
    );
}

#[test]
fn test_cross_module_imported_constant() {
    let constants = parse_module("DATA = [1, 2, 3]\nVALUE = 100\n");
    let tests = parse_module("from constants import DATA, VALUE\n");
    let mut resolver =
        ConstantResolver::from_module_with_imports(&tests, &["test_mod".to_string()]);
    resolver.add_module(vec!["constants".into()], Some(&constants));
    assert_eq!(resolver.resolve_pending_assignments(), None);

    assert_eq!(
        resolver.resolve(&expr_from("VALUE")).unwrap(),
        Some((LiteralValue::Int(100), vec!["VALUE".into()]))
    );
    assert_eq!(
        resolver.resolve(&expr_from("DATA")).unwrap(),
        Some((
            LiteralValue::Sequence(vec![
                LiteralValue::Int(1),
                LiteralValue::Int(2),
                LiteralValue::Int(3),
            ]),
            vec!["DATA".into()]
        ))
    );
}

#[test]
fn test_cross_module_imported_enum_member() {
    let colors = parse_module(
        r#"
from enum import Enum
class Color(Enum):
    RED = 1
"#,
    );
    let tests = parse_module("from colors import Color\n");
    let mut resolver =
        ConstantResolver::from_module_with_imports(&tests, &["test_mod".to_string()]);
    resolver.add_module(vec!["colors".into()], Some(&colors));
    assert_eq!(resolver.resolve_pending_assignments(), None);

    let resolved = resolver
        .resolve_in_class(None, &expr_from("Color.RED"))
        .unwrap()
        .unwrap();
    assert_eq!(
        resolved.value,
        LiteralValue::EnumMember {
            class_name: "Color".into(),
            member_name: "RED".into(),
        }
    );
    assert!(resolved.is_enum_member);
    assert_eq!(
        resolved.source_path,
        vec!["Color".to_string(), "RED".into()]
    );
}
