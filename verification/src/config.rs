//! Configuration parsing for pytest settings from pyproject.toml

use crate::strings::{copy, texts};
use vstd::prelude::*;

verus! {

/// Pytest configuration from pyproject.toml
#[derive(Debug)]
pub struct PytestConfig {
    /// Test paths to search for tests
    pub testpaths: Vec<String>,
    /// Glob patterns for test file names (e.g., "test_*.py", "*_test.py")
    pub python_files: Vec<String>,
    /// Patterns for test class names (e.g., "Test*")
    pub python_classes: Vec<String>,
    /// Patterns for test function/method names (e.g., "test*")
    pub python_functions: Vec<String>,
}

/// View of a [`PytestConfig`].
pub ghost struct PytestConfigView {
    pub testpaths: Seq<Seq<char>>,
    pub python_files: Seq<Seq<char>>,
    pub python_classes: Seq<Seq<char>>,
    pub python_functions: Seq<Seq<char>>,
}

/// A configuration in which nothing is set.
pub open spec fn unset() -> PytestConfigView {
    PytestConfigView {
        testpaths: seq![],
        python_files: seq![],
        python_classes: seq![],
        python_functions: seq![],
    }
}

impl PytestConfig {
    pub open spec fn view(&self) -> PytestConfigView {
        PytestConfigView {
            testpaths: texts(self.testpaths@),
            python_files: texts(self.python_files@),
            python_classes: texts(self.python_classes@),
            python_functions: texts(self.python_functions@),
        }
    }
}

impl Default for PytestConfig {
    fn default() -> (r: Self)
        ensures
            r@ == unset(),
    {
        let r = PytestConfig {
            testpaths: Vec::new(),
            python_files: Vec::new(),
            python_classes: Vec::new(),
            python_functions: Vec::new(),
        };
        proof {
            assert(r@.testpaths =~= unset().testpaths);
            assert(r@.python_files =~= unset().python_files);
            assert(r@.python_classes =~= unset().python_classes);
            assert(r@.python_functions =~= unset().python_functions);
        }
        r
    }
}

// ---------------------------------------------------------------------------------------------
// TOML values
// ---------------------------------------------------------------------------------------------
/// A TOML value: a string, an array, a table, or something else.
pub ghost enum TomlView {
    Text(Seq<char>),
    List(Seq<TomlView>),
    Table(Map<Seq<char>, TomlView>),
    Other,
}

/// A value of the `toml` crate.
#[verifier::external_type_specification]
#[verifier::external_body]
pub struct ExTomlValue(toml::Value);

/// What a TOML value holds.
pub uninterp spec fn toml_value(v: toml::Value) -> TomlView;

/// What the `toml` crate makes of a document, if it is one.
pub uninterp spec fn parsed_toml(content: Seq<char>) -> Option<TomlView>;

pub open spec fn toml_values(list: Seq<toml::Value>) -> Seq<TomlView> {
    Seq::new(list.len(), |i: int| toml_value(list[i]))
}

/// The value under a key of a table.
pub open spec fn member_of(value: TomlView, key: Seq<char>) -> Option<TomlView> {
    match value {
        TomlView::Table(table) => if table.dom().contains(key) {
            Some(table[key])
        } else {
            None
        },
        _ => None,
    }
}

/// `toml::from_str` into a `toml::Value`: the value of a document, nothing where the text is not
/// TOML. The result depends on the text alone.
#[verifier::external_body]
fn parse_toml(content: &str) -> (r: Option<toml::Value>)
    ensures
        match r {
            Some(value) => parsed_toml(content@) == Some(toml_value(value)),
            None => parsed_toml(content@) is None,
        },
{
    toml::from_str::<toml::Value>(content).ok()
}

/// `toml::Value::get` with a string: the value under a key, nothing where the value is no table or
/// has no such key.
#[verifier::external_body]
fn toml_member<'a>(value: &'a toml::Value, key: &str) -> (r: Option<&'a toml::Value>)
    ensures
        match r {
            Some(member) => member_of(toml_value(*value), key@) == Some(toml_value(*member)),
            None => member_of(toml_value(*value), key@) is None,
        },
{
    value.get(key)
}

/// `toml::Value::as_array`: the elements of an array, nothing where the value is none.
#[verifier::external_body]
fn toml_elements(value: &toml::Value) -> (r: Option<&Vec<toml::Value>>)
    ensures
        match r {
            Some(list) => toml_value(*value) == TomlView::List(toml_values(list@)),
            None => !(toml_value(*value) is List),
        },
{
    value.as_array()
}

/// `toml::Value::as_str`: the text of a string, nothing where the value is none.
#[verifier::external_body]
fn toml_text(value: &toml::Value) -> (r: Option<&str>)
    ensures
        match r {
            Some(text) => toml_value(*value) == TomlView::Text(text@),
            None => !(toml_value(*value) is Text),
        },
{
    value.as_str()
}

// ---------------------------------------------------------------------------------------------
// Settings
// ---------------------------------------------------------------------------------------------
/// The strings among the values, in order.
pub open spec fn strings_in(list: Seq<TomlView>) -> Seq<Seq<char>>
    decreases list.len(),
{
    if list.len() == 0 {
        seq![]
    } else {
        match list.last() {
            TomlView::Text(text) => strings_in(list.drop_last()).push(text),
            _ => strings_in(list.drop_last()),
        }
    }
}

/// The strings of the array under a key; none where there is no such array.
pub open spec fn array_under(options: Option<TomlView>, key: Seq<char>) -> Seq<Seq<char>> {
    match options {
        None => seq![],
        Some(table) => match member_of(table, key) {
            Some(TomlView::List(list)) => strings_in(list),
            _ => seq![],
        },
    }
}

/// The options of pytest: the table `tool.pytest.ini_options`.
pub open spec fn ini_options(document: TomlView) -> Option<TomlView> {
    match member_of(document, "tool"@) {
        None => None,
        Some(tool) => match member_of(tool, "pytest"@) {
            None => None,
            Some(pytest) => member_of(pytest, "ini_options"@),
        },
    }
}

/// The settings of a document.
pub open spec fn settings_of(document: TomlView) -> PytestConfigView {
    let options = ini_options(document);
    PytestConfigView {
        testpaths: array_under(options, "testpaths"@),
        python_files: array_under(options, "python_files"@),
        python_classes: array_under(options, "python_classes"@),
        python_functions: array_under(options, "python_functions"@),
    }
}

/// Read a TOML array of strings under the given `key`: its string elements, none when the key is
/// absent or not an array.
pub fn read_string_array(options: Option<&toml::Value>, key: &str) -> (r: Vec<String>)
    ensures
        texts(r@) == array_under(
            match options {
                Some(value) => Some(toml_value(*value)),
                None => None,
            },
            key@,
        ),
{
    let mut r: Vec<String> = Vec::new();
    assert(texts(r@) =~= Seq::<Seq<char>>::empty());
    let list = match options {
        None => {
            return r;
        },
        Some(table) => match toml_member(table, key) {
            None => {
                return r;
            },
            Some(value) => match toml_elements(value) {
                None => {
                    return r;
                },
                Some(list) => list,
            },
        },
    };
    let ghost views = toml_values(list@);
    let mut i: usize = 0;
    assert(views.take(0) =~= Seq::<TomlView>::empty());
    while i < list.len()
        invariant
            i <= list@.len(),
            views == toml_values(list@),
            texts(r@) == strings_in(views.take(i as int)),
        decreases list@.len() - i,
    {
        proof {
            assert(views.take(i + 1).drop_last() =~= views.take(i as int));
            assert(views.take(i + 1).last() == toml_value(list@[i as int]));
        }
        if let Some(text) = toml_text(&list[i]) {
            let ghost before = r@;
            r.push(copy(text));
            assert(texts(r@) =~= texts(before).push(text@));
        }
        i = i + 1;
    }
    assert(views.take(views.len() as int) =~= views);
    r
}

/// The settings of a parsed document.
pub fn settings_from(document: &toml::Value) -> (r: PytestConfig)
    ensures
        r@ == settings_of(toml_value(*document)),
{
    let options: Option<&toml::Value> = match toml_member(document, "tool") {
        None => None,
        Some(tool) => match toml_member(tool, "pytest") {
            None => None,
            Some(pytest) => toml_member(pytest, "ini_options"),
        },
    };
    PytestConfig {
        testpaths: read_string_array(options, "testpaths"),
        python_files: read_string_array(options, "python_files"),
        python_classes: read_string_array(options, "python_classes"),
        python_functions: read_string_array(options, "python_functions"),
    }
}

/// Read pytest configuration from the contents of pyproject.toml. Without a file, or where the file
/// is not TOML, nothing is set.
pub fn read_pytest_config(content: Option<&str>) -> (r: PytestConfig)
    ensures
        r@ == match content {
            None => unset(),
            Some(text) => match parsed_toml(text@) {
                None => unset(),
                Some(document) => settings_of(document),
            },
        },
{
    match content {
        None => PytestConfig::default(),
        Some(text) => match parse_toml(text) {
            None => PytestConfig::default(),
            Some(document) => settings_from(&document),
        },
    }
}

} // verus!
