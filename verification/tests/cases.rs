use rtest::python_discovery::cases::{
    ascii_escape_string, combine_and_expand_specs, deduplicate_ids, expand_cases,
    expand_single_spec, literal_to_id_string, CasesSpec, LiteralValue, MethodCasesInfo,
};
use rtest::python_discovery::decorators::fill_opaque_placeholders;
use rtest::python_discovery::{
    cannot_expand_nodeid_from_message, format_cannot_expand_marker, format_cannot_expand_warning,
    CannotExpandReason, CasesExpansion,
};

#[test]
fn test_deduplicate_ids_no_duplicates() {
    let ids = vec!["a".to_string(), "b".to_string(), "c".to_string()];
    assert_eq!(deduplicate_ids(ids), vec!["a", "b", "c"]);
}

#[test]
fn test_deduplicate_ids_with_duplicates() {
    let ids = vec![
        "a".to_string(),
        "b".to_string(),
        "a".to_string(),
        "a".to_string(),
    ];
    assert_eq!(deduplicate_ids(ids), vec!["a", "b", "a_1", "a_2"]);
}

#[test]
fn test_expand_single_spec_numeric() {
    let spec = CasesSpec {
        argnames: vec!["x".to_string()],
        argvalues: vec![
            LiteralValue::Int(1),
            LiteralValue::Int(2),
            LiteralValue::Int(3),
        ],
        value_ids: vec!["1".to_string(), "2".to_string(), "3".to_string()],
        ids: None,
    };
    assert_eq!(expand_single_spec(&spec), vec!["1", "2", "3"]);
}

#[test]
fn test_expand_single_spec_custom_ids() {
    let spec = CasesSpec {
        argnames: vec!["x".to_string()],
        argvalues: vec![
            LiteralValue::Int(1),
            LiteralValue::Int(2),
            LiteralValue::Int(3),
        ],
        value_ids: vec!["1".to_string(), "2".to_string(), "3".to_string()],
        ids: Some(vec![
            "one".to_string(),
            "two".to_string(),
            "three".to_string(),
        ]),
    };
    assert_eq!(expand_single_spec(&spec), vec!["one", "two", "three"]);
}

#[test]
fn test_expand_cases_cartesian_product() {
    let specs = vec![
        CasesSpec {
            argnames: vec!["x".to_string()],
            argvalues: vec![LiteralValue::Int(1), LiteralValue::Int(2)],
            value_ids: vec!["1".to_string(), "2".to_string()],
            ids: None,
        },
        CasesSpec {
            argnames: vec!["y".to_string()],
            argvalues: vec![
                LiteralValue::String("a".to_string()),
                LiteralValue::String("b".to_string()),
            ],
            value_ids: vec!["a".to_string(), "b".to_string()],
            ids: None,
        },
    ];
    let cases = expand_cases(&specs);
    let ids: Vec<&str> = cases.iter().map(|c| c.case_id.as_str()).collect();
    // Bottom decorator (y) processed first, so y varies before x
    assert_eq!(ids, vec!["a-1", "a-2", "b-1", "b-2"]);
}

#[test]
fn test_literal_to_id_string() {
    assert_eq!(literal_to_id_string(&LiteralValue::Int(42)), "42");
    assert_eq!(literal_to_id_string(&LiteralValue::Float("2.5".to_string())), "2.5");
    assert_eq!(
        literal_to_id_string(&LiteralValue::String("hello".to_string())),
        "hello"
    );
    assert_eq!(literal_to_id_string(&LiteralValue::Bool(true)), "True");
    assert_eq!(literal_to_id_string(&LiteralValue::Bool(false)), "False");
    assert_eq!(literal_to_id_string(&LiteralValue::NoneValue), "None");
    assert_eq!(
        literal_to_id_string(&LiteralValue::EnumMember {
            class_name: "Color".to_string(),
            member_name: "RED".to_string(),
        }),
        "Color.RED"
    );
    assert_eq!(
        literal_to_id_string(&LiteralValue::Sequence(vec![
            LiteralValue::Int(1),
            LiteralValue::String("a".to_string()),
        ])),
        "1-a"
    );
}

#[test]
fn test_format_cannot_expand_warning() {
    let warning = format_cannot_expand_warning(
        "test_foo.py::test_x",
        &CannotExpandReason::VariableReference("DATA".to_string()),
    );
    assert_eq!(
        warning,
        "warning: Cannot statically expand test cases for 'test_foo.py::test_x': argvalues references variable 'DATA'"
    );
    assert_eq!(
        cannot_expand_nodeid_from_message(&warning),
        Some("test_foo.py::test_x")
    );
    assert_eq!(
        format_cannot_expand_marker("test_foo.py::test_x"),
        "rtest-cannot-expand: test_foo.py::test_x"
    );
}

#[test]
fn test_expand_single_spec_empty_argvalues() {
    let spec = CasesSpec {
        argnames: vec!["x".to_string()],
        argvalues: vec![],
        value_ids: vec![],
        ids: None,
    };
    assert_eq!(expand_single_spec(&spec), Vec::<String>::new());
}

#[test]
fn test_ascii_escape_string_backslash() {
    // Backslash escaping - the main issue from #124
    assert_eq!(ascii_escape_string("\\u2603"), "\\\\u2603");
    assert_eq!(ascii_escape_string("\"\\u2603\""), "\"\\\\u2603\"");
}

#[test]
fn test_ascii_escape_string_unicode() {
    // Non-ASCII to Unicode escape
    assert_eq!(ascii_escape_string("☃"), "\\u2603");
    assert_eq!(ascii_escape_string("\"☃\""), "\"\\u2603\"");

    // Supplementary plane character (code point > U+FFFF)
    assert_eq!(ascii_escape_string("𝄞"), "\\U0001d11e");
}

#[test]
fn test_ascii_escape_string_control_chars() {
    assert_eq!(ascii_escape_string("a\nb"), "a\\nb");
    assert_eq!(ascii_escape_string("a\tb"), "a\\tb");
    assert_eq!(ascii_escape_string("a\rb"), "a\\rb");
    assert_eq!(ascii_escape_string("\x00"), "\\x00");
}

#[test]
fn test_ascii_escape_string_plain_ascii() {
    // Plain ASCII unchanged
    assert_eq!(ascii_escape_string("hello"), "hello");
    assert_eq!(ascii_escape_string("Hello World 123!"), "Hello World 123!");
}

#[test]
fn test_ascii_escape_string_mixed() {
    // Mixed content
    assert_eq!(
        ascii_escape_string("hello\\world☃"),
        "hello\\\\world\\u2603"
    );
}

#[test]
fn test_combine_and_expand_specs_class_only() {
    // When class has parametrize but method doesn't, should still expand
    let class_specs = MethodCasesInfo::Specs(vec![CasesSpec {
        argnames: vec!["x".to_string()],
        argvalues: vec![LiteralValue::Int(1), LiteralValue::Int(2)],
        value_ids: vec!["1".to_string(), "2".to_string()],
        ids: None,
    }]);
    let method_specs = MethodCasesInfo::NotDecorated;

    let result = combine_and_expand_specs(&class_specs, &method_specs);

    match result {
        CasesExpansion::Expanded(cases) => {
            assert_eq!(cases.len(), 2);
            assert_eq!(cases[0].case_id, "1");
            assert_eq!(cases[1].case_id, "2");
        }
        _ => panic!("Expected Expanded, got {:?}", result),
    }
}

#[test]
fn test_combine_and_expand_specs_both() {
    // When both class and method have parametrize, should combine
    let class_specs = MethodCasesInfo::Specs(vec![CasesSpec {
        argnames: vec!["x".to_string()],
        argvalues: vec![LiteralValue::Int(1), LiteralValue::Int(2)],
        value_ids: vec!["1".to_string(), "2".to_string()],
        ids: None,
    }]);
    let method_specs = MethodCasesInfo::Specs(vec![CasesSpec {
        argnames: vec!["y".to_string()],
        argvalues: vec![
            LiteralValue::String("a".to_string()),
            LiteralValue::String("b".to_string()),
        ],
        value_ids: vec!["a".to_string(), "b".to_string()],
        ids: None,
    }]);

    let result = combine_and_expand_specs(&class_specs, &method_specs);

    match result {
        CasesExpansion::Expanded(cases) => {
            assert_eq!(cases.len(), 4);
            // Method params vary fastest (innermost)
            assert_eq!(cases[0].case_id, "a-1");
            assert_eq!(cases[1].case_id, "a-2");
            assert_eq!(cases[2].case_id, "b-1");
            assert_eq!(cases[3].case_id, "b-2");
        }
        _ => panic!("Expected Expanded, got {:?}", result),
    }
}

#[test]
fn test_fill_opaque_placeholders_first_opaque() {
    // Issue #137: Complex first argument with trailing literals
    // (MyData(1), 2, 3) with argnames ["data", "num", "count"] at index 0
    let argnames = vec!["data".to_string(), "num".to_string(), "count".to_string()];
    assert_eq!(fill_opaque_placeholders("-2-3", &argnames, 0), "data0-2-3");
    assert_eq!(fill_opaque_placeholders("-5-6", &argnames, 1), "data1-5-6");
}

#[test]
fn test_fill_opaque_placeholders_last_opaque() {
    // (1, Config(10)) with argnames ["a", "b"] at index 0
    let argnames = vec!["a".to_string(), "b".to_string()];
    assert_eq!(fill_opaque_placeholders("1-", &argnames, 0), "1-b0");
    assert_eq!(fill_opaque_placeholders("2-", &argnames, 1), "2-b1");
}

#[test]
fn test_fill_opaque_placeholders_middle_opaque() {
    // (1, Config(10), 100) with argnames ["start", "config", "end"] at index 0
    let argnames = vec!["start".to_string(), "config".to_string(), "end".to_string()];
    assert_eq!(
        fill_opaque_placeholders("1--100", &argnames, 0),
        "1-config0-100"
    );
    assert_eq!(
        fill_opaque_placeholders("2--200", &argnames, 1),
        "2-config1-200"
    );
}

#[test]
fn test_fill_opaque_placeholders_all_opaque() {
    // (Data(1), Data(2)) with argnames ["a", "b"] at index 0
    let argnames = vec!["a".to_string(), "b".to_string()];
    assert_eq!(fill_opaque_placeholders("-", &argnames, 0), "a0-b0");
    assert_eq!(fill_opaque_placeholders("-", &argnames, 1), "a1-b1");
}

#[test]
fn test_fill_opaque_placeholders_no_opaque() {
    // All literals - should be unchanged
    let argnames = vec!["x".to_string(), "y".to_string()];
    assert_eq!(fill_opaque_placeholders("1-2", &argnames, 0), "1-2");
    assert_eq!(
        fill_opaque_placeholders("hello-world", &argnames, 1),
        "hello-world"
    );
}
