use rtest::ordered::{comes_before, insert_path, insert_text, path_before};
use rtest::python_discovery::cases::{
    ascii_escape_string, cannot_expand_nodeid_from_message, combine_and_expand_specs,
    deduplicate_ids, expand_cases, format_cannot_expand_warning, CannotExpandReason, CasesExpansion,
    CasesSpec, LiteralValue, MethodCasesInfo,
};
use rtest::python_discovery::decorators::{
    enum_member_id, fill_opaque_placeholders, finalize_pytest_id, id_for_resolved_case_value,
    IdPart,
};
use rtest::python_discovery::numbers::{float_repr, integer_repr};
use rtest::strings::{
    contains, ends_with, hex_string, i64_string, join, parse_usize, split, starts_with, trim,
    usize_string,
};
use rtest::table::{insert, place_of};

fn texts(list: &[&str]) -> Vec<String> {
    list.iter().map(|s| s.to_string()).collect()
}

fn spec(ids: &[&str]) -> CasesSpec {
    CasesSpec {
        argnames: texts(&["x"]),
        argvalues: ids.iter().map(|_| LiteralValue::Opaque).collect(),
        value_ids: texts(ids),
        ids: None,
    }
}

#[test]
fn numbers_are_read_back() {
    for n in [0usize, 1, 9, 10, 99, 100, 4096, usize::MAX] {
        assert_eq!(usize_string(n), n.to_string());
        assert_eq!(parse_usize(&usize_string(n)), Some(n));
    }
    assert_eq!(parse_usize("+7"), Some(7));
    assert_eq!(parse_usize("007"), Some(7));
    for text in ["", "+", "-1", "1x", " 1", "99999999999999999999999"] {
        assert_eq!(parse_usize(text), None);
        assert!(text.parse::<usize>().is_err());
    }
    assert_eq!(i64_string(i64::MIN), i64::MIN.to_string());
    assert_eq!(i64_string(-5), "-5");
    assert_eq!(hex_string(0x2603, 4), "2603");
    assert_eq!(hex_string(10, 2), "0a");
}

#[test]
fn texts_are_taken_apart_like_those_of_str() {
    for text in ["", "a", "a,b", ",a,,b,", "é,ü"] {
        let expected: Vec<&str> = text.split(',').collect();
        assert_eq!(split(text, ','), expected);
        assert_eq!(join(&split(text, ','), ","), text);
    }
    for text in ["", " ", " a ", "\t\n a b \u{3000}", "\u{a0}x", "\u{200b}y"] {
        assert_eq!(trim(text), text.trim());
    }
    assert!(starts_with("abc", "ab") && !starts_with("abc", "bc") && starts_with("abc", ""));
    assert!(ends_with("abc", "bc") && !ends_with("abc", "ab"));
    assert!(contains("abcd", "bc") && !contains("abcd", "cb") && contains("abcd", ""));
}

#[test]
fn sorted_lists_hold_each_text_once() {
    let mut list: Vec<String> = Vec::new();
    for text in ["b", "a", "c", "a", "ab", ""] {
        insert_text(&mut list, text);
    }
    assert_eq!(list, vec!["", "a", "ab", "b", "c"]);
    assert!(comes_before("Z", "a") && comes_before("a", "aa") && !comes_before("a", "a"));
    for (a, b) in [("é", "z"), ("a", "b"), ("aa", "b")] {
        assert_eq!(comes_before(a, b), a < b);
    }
}

#[test]
fn sorted_paths_keep_repetitions() {
    let mut list: Vec<Vec<String>> = Vec::new();
    for path in [
        texts(&["b"]),
        texts(&["a", "z"]),
        texts(&["a"]),
        texts(&["b"]),
    ] {
        insert_path(&mut list, path);
    }
    assert_eq!(
        list,
        vec![
            texts(&["a"]),
            texts(&["a", "z"]),
            texts(&["b"]),
            texts(&["b"]),
        ]
    );
    assert!(path_before(&texts(&["a", "z"]), &texts(&["a-b"])));
}

#[test]
fn tables_keep_the_last_value() {
    let mut table: Vec<(String, i32)> = Vec::new();
    insert(&mut table, "a".to_string(), 1);
    insert(&mut table, "b".to_string(), 2);
    insert(&mut table, "a".to_string(), 3);
    assert_eq!(table, vec![("a".to_string(), 3), ("b".to_string(), 2)]);
    assert_eq!(place_of(&table, "b"), 1);
    assert_eq!(place_of(&table, "c"), 2);
}

#[test]
fn repeated_ids_become_different() {
    assert_eq!(
        deduplicate_ids(texts(&["a", "a", "b", "a", "b"])),
        vec!["a", "a_1", "b", "a_2", "b_1"]
    );
    // An ID that looks marked already may meet a marked one.
    assert_eq!(
        deduplicate_ids(texts(&["a", "a", "a_1"])),
        vec!["a", "a_1", "a_1"]
    );
}

#[test]
fn stacked_decorators_multiply() {
    let cases = expand_cases(&[spec(&["1", "2", "3"]), spec(&["a", "b"])]);
    let ids: Vec<&str> = cases.iter().map(|c| c.case_id.as_str()).collect();
    assert_eq!(ids, vec!["a-1", "a-2", "a-3", "b-1", "b-2", "b-3"]);
    assert!(expand_cases(&[]).is_empty());
    assert!(expand_cases(&[spec(&["1"]), spec(&[])]).is_empty());
}

#[test]
fn obstacles_prevail() {
    let obstacle = MethodCasesInfo::CannotExpand(CannotExpandReason::Comprehension);
    let specs = MethodCasesInfo::Specs(vec![spec(&["1"])]);
    assert!(matches!(
        combine_and_expand_specs(&obstacle, &specs),
        CasesExpansion::CannotExpand(CannotExpandReason::Comprehension)
    ));
    assert!(matches!(
        combine_and_expand_specs(&specs, &obstacle),
        CasesExpansion::CannotExpand(_)
    ));
    assert!(matches!(
        combine_and_expand_specs(&MethodCasesInfo::NotDecorated, &MethodCasesInfo::NotDecorated),
        CasesExpansion::NotDecorated
    ));
}

#[test]
fn escaped_texts_are_printable() {
    for code in 0u32..0x3000 {
        if let Some(c) = char::from_u32(code) {
            let escaped = ascii_escape_string(&c.to_string());
            assert!(escaped.chars().all(|e| (' '..='~').contains(&e)));
        }
    }
    assert_eq!(ascii_escape_string("\u{7f}\u{80}"), "\\x7f\\u0080");
}

#[test]
fn node_ids_are_read_back_from_warnings() {
    let reason = CannotExpandReason::FunctionCall("f".to_string());
    let warning = format_cannot_expand_warning("a.py::T::x", &reason);
    assert_eq!(
        cannot_expand_nodeid_from_message(&warning),
        Some("a.py::T::x")
    );
    // A quote in the ID cuts it short.
    let warning = format_cannot_expand_warning("it's.py::x", &reason);
    assert_eq!(cannot_expand_nodeid_from_message(&warning), Some("it"));
    assert_eq!(cannot_expand_nodeid_from_message("something else"), None);
}

#[test]
fn ids_of_values() {
    assert_eq!(enum_member_id(&texts(&["m", "Color", "RED"])), "Color.RED");
    assert_eq!(enum_member_id(&texts(&["RED"])), "RED");
    let names = texts(&["a", "b"]);
    let pair = LiteralValue::Sequence(vec![
        LiteralValue::Int(1),
        LiteralValue::Sequence(Vec::new()),
    ]);
    assert_eq!(id_for_resolved_case_value(&pair, &names, 2), "1-b2");
    assert_eq!(
        id_for_resolved_case_value(&LiteralValue::Opaque, &texts(&["a"]), 3),
        "a3"
    );
    assert_eq!(
        id_for_resolved_case_value(&LiteralValue::String(String::new()), &[], 3),
        ""
    );
    let part = |text: &str, is_opaque: bool| IdPart {
        text: text.to_string(),
        is_opaque,
    };
    assert_eq!(finalize_pytest_id(&[part("", true)], &names, 1), "a1");
    assert_eq!(
        finalize_pytest_id(&[part("x", false), part("", true)], &names, 1),
        "x-b1"
    );
    assert_eq!(finalize_pytest_id(&[part("x-", false)], &names, 1), "x-");
    assert_eq!(
        finalize_pytest_id(&[part("-5", false), part("", false)], &names, 1),
        "-5-"
    );
}

#[test]
fn placeholders_are_filled_once() {
    let names = texts(&["a", "b", "c"]);
    for id in ["-2-", "", "--", "x-y-z", "1"] {
        let once = fill_opaque_placeholders(id, &names, 4);
        assert_eq!(fill_opaque_placeholders(&once, &names, 4), once);
        assert_eq!(once.split('-').count(), id.split('-').count());
    }
    assert_eq!(fill_opaque_placeholders("-2-", &names, 4), "a4-2-c4");
    let part = |text: &str| IdPart {
        text: text.to_string(),
        is_opaque: text.is_empty(),
    };
    assert_eq!(
        finalize_pytest_id(&[part(""), part("2"), part("")], &names, 4),
        "a4-2-c4"
    );
}

#[test]
fn escaping_goes_part_by_part_and_tells_texts_apart() {
    let parts = ["a", "\\", "\n", "\\n", "\u{1}", "\\x01", "é", "\\u00e9", "\u{1F600}", ""];
    for a in parts {
        for b in parts {
            let whole = ascii_escape_string(&format!("{}{}", a, b));
            assert_eq!(whole, ascii_escape_string(a) + &ascii_escape_string(b));
            assert_eq!(a == b, ascii_escape_string(a) == ascii_escape_string(b));
        }
    }
}

#[test]
fn floats_read_as_in_python() {
    for (number, expected) in [
        (2.0f64, "2.0"),
        (0.0, "0.0"),
        (2.5, "2.5"),
        (120.25, "120.25"),
        (0.0001, "0.0001"),
        (0.00001, "1e-05"),
        (1.5e-7, "1.5e-07"),
        (1e15, "1000000000000000.0"),
        (1234567890123456.0, "1234567890123456.0"),
        (1e16, "1e+16"),
        (1.25e300, "1.25e+300"),
        (f64::INFINITY, "inf"),
    ] {
        assert_eq!(float_repr(&format!("{:e}", number)), expected);
    }
    assert_eq!(float_repr("1ex"), "1ex");
}

#[test]
fn integers_of_any_size_read_as_in_python() {
    for (literal, expected) in [
        ("0x10000000000000000", "18446744073709551616"),
        ("0XFFFF_FFFF_FFFF_FFFF_F", "295147905179352825855"),
        ("0o2000000000000000000000", "18446744073709551616"),
        (
            "0b10000000000000000000000000000000000000000000000000000000000000000",
            "18446744073709551616",
        ),
        ("1_000_000_000_000_000_000_000", "1000000000000000000000"),
        ("99999999999999999999", "99999999999999999999"),
        ("0", "0"),
        ("", "0"),
    ] {
        assert_eq!(integer_repr(literal), expected);
    }
}
