//! Cases of parametrized tests: the values and IDs that `@rtest.mark.cases` and
//! `@pytest.mark.parametrize` decorators give a test, and their expansion into single cases.

use crate::strings::{
    chars_of, copy, copy_all, find, first_place, hex_string, hex_text, i64_string, int_text, join, joined,
    nat_text, same, string_of, text_lists, texts, usize_string,
};
use vstd::arithmetic::div_mod::lemma_fundamental_div_mod_converse;
use vstd::prelude::*;

verus! {

// ---------------------------------------------------------------------------------------------
// Values
// ---------------------------------------------------------------------------------------------
/// A literal value that can be statically extracted from the source.
#[derive(Debug, PartialEq)]
pub enum LiteralValue {
    Int(i64),
    /// A floating-point number, by its shortest decimal text.
    Float(String),
    String(String),
    Bool(bool),
    NoneValue,
    /// A tuple/list of literal values (for multi-param cases like `(1, "a")`).
    Sequence(Vec<LiteralValue>),
    /// A value we can count but cannot statically evaluate (e.g., dataclass instances, dicts).
    /// Used for generating positional fallback IDs.
    Opaque,
    /// An enum member. Pytest IDs use `str(member)`, that is `Class.MEMBER`.
    EnumMember { class_name: String, member_name: String },
}

/// View of a [`LiteralValue`].
pub ghost enum ValueView {
    Int(i64),
    Float(Seq<char>),
    Text(Seq<char>),
    Bool(bool),
    NoneValue,
    Sequence(Seq<ValueView>),
    Opaque,
    EnumMember { class_name: Seq<char>, member_name: Seq<char> },
}

impl LiteralValue {
    pub open spec fn view(&self) -> ValueView
        decreases self,
    {
        match self {
            LiteralValue::Int(i) => ValueView::Int(*i),
            LiteralValue::Float(text) => ValueView::Float(text@),
            LiteralValue::String(s) => ValueView::Text(s@),
            LiteralValue::Bool(b) => ValueView::Bool(*b),
            LiteralValue::NoneValue => ValueView::NoneValue,
            LiteralValue::Sequence(list) => ValueView::Sequence(value_views(list@)),
            LiteralValue::Opaque => ValueView::Opaque,
            LiteralValue::EnumMember { class_name, member_name } => ValueView::EnumMember {
                class_name: class_name@,
                member_name: member_name@,
            },
        }
    }

    /// A value with the same contents.
    pub fn copy(&self) -> (r: LiteralValue)
        ensures
            r@ == self@,
        decreases self@,
    {
        match self {
            LiteralValue::Int(i) => LiteralValue::Int(*i),
            LiteralValue::Float(text) => LiteralValue::Float(copy(text.as_str())),
            LiteralValue::String(s) => LiteralValue::String(copy(s.as_str())),
            LiteralValue::Bool(b) => LiteralValue::Bool(*b),
            LiteralValue::NoneValue => LiteralValue::NoneValue,
            LiteralValue::Sequence(list) => {
                let mut values: Vec<LiteralValue> = Vec::new();
                let mut i: usize = 0;
                while i < list.len()
                    invariant
                        i <= list@.len(),
                        values@.len() == i,
                        self == LiteralValue::Sequence(*list),
                        forall|j: int| 0 <= j < i ==> (#[trigger] values@[j])@ == list@[j]@,
                    decreases list@.len() - i,
                {
                    proof {
                        lemma_element_is_smaller(self@, i as int);
                    }
                    values.push(list[i].copy());
                    i = i + 1;
                }
                assert(value_views(values@) =~= value_views(list@));
                LiteralValue::Sequence(values)
            },
            LiteralValue::Opaque => LiteralValue::Opaque,
            LiteralValue::EnumMember { class_name, member_name } => LiteralValue::EnumMember {
                class_name: copy(class_name.as_str()),
                member_name: copy(member_name.as_str()),
            },
        }
    }
}

impl Clone for LiteralValue {
    fn clone(&self) -> (r: Self)
        ensures
            r@ == self@,
    {
        self.copy()
    }
}

/// The views of a list of values.
pub open spec fn value_views(list: Seq<LiteralValue>) -> Seq<ValueView>
    decreases list,
{
    Seq::new(
        list.len(),
        |i: int|
            if 0 <= i < list.len() {
                list[i].view()
            } else {
                ValueView::Opaque
            },
    )
}

/// A sequence is larger than each of its elements.
proof fn lemma_element_is_smaller(value: ValueView, i: int)
    requires
        value is Sequence,
        0 <= i < value->Sequence_0.len(),
    ensures
        decreases_to!(value => value->Sequence_0[i]),
{
    assert(decreases_to!(value => value->Sequence_0));
    assert(decreases_to!(value->Sequence_0 => value->Sequence_0[i]));
}

/// A list of values with the same contents.
pub fn copy_values(list: &[LiteralValue]) -> (r: Vec<LiteralValue>)
    ensures
        value_views(r@) == value_views(list@),
{
    let mut values: Vec<LiteralValue> = Vec::new();
    let mut i: usize = 0;
    while i < list.len()
        invariant
            i <= list@.len(),
            values@.len() == i,
            forall|j: int| 0 <= j < i ==> (#[trigger] values@[j])@ == list@[j]@,
        decreases list@.len() - i,
    {
        values.push(list[i].copy());
        i = i + 1;
    }
    assert(value_views(values@) =~= value_views(list@));
    values
}

// ---------------------------------------------------------------------------------------------
// IDs of values
// ---------------------------------------------------------------------------------------------
/// A character as it stands in a test ID: backslashes, control characters and characters
/// outside ASCII are escaped.
pub open spec fn escaped_char(c: char) -> Seq<char> {
    let code = c as u32;
    if c == '\\' {
        seq!['\\', '\\']
    } else if c == '\n' {
        seq!['\\', 'n']
    } else if c == '\r' {
        seq!['\\', 'r']
    } else if c == '\t' {
        seq!['\\', 't']
    } else if code < 0x20 || code == 0x7F {
        seq!['\\', 'x'] + hex_text(code as nat, 2)
    } else if code < 0x80 {
        seq![c]
    } else if code <= 0xFFFF {
        seq!['\\', 'u'] + hex_text(code as nat, 4)
    } else {
        seq!['\\', 'U'] + hex_text(code as nat, 8)
    }
}

/// A text as it stands in a test ID.
pub open spec fn escaped(s: Seq<char>) -> Seq<char>
    decreases s.len(),
{
    if s.len() == 0 {
        seq![]
    } else {
        escaped(s.drop_last()) + escaped_char(s.last())
    }
}

/// The ID of a value.
pub open spec fn value_id(value: ValueView) -> Seq<char>
    decreases value,
{
    match value {
        ValueView::Int(i) => int_text(i as int),
        ValueView::Float(text) => text,
        ValueView::Text(s) => escaped(s),
        ValueView::Bool(b) => if b {
            "True"@
        } else {
            "False"@
        },
        ValueView::NoneValue => "None"@,
        ValueView::Sequence(list) => joined(value_ids(list), "-"@),
        ValueView::Opaque => seq![],
        ValueView::EnumMember { class_name, member_name } => class_name + seq!['.'] + member_name,
    }
}

/// The IDs of a list of values.
pub open spec fn value_ids(list: Seq<ValueView>) -> Seq<Seq<char>>
    decreases list,
{
    Seq::new(
        list.len(),
        |i: int|
            if 0 <= i < list.len() {
                value_id(list[i])
            } else {
                seq![]
            },
    )
}

/// Escape a string for use in test IDs.
///
/// Escapes backslashes, control characters, and non-ASCII characters.
pub fn ascii_escape_string(s: &str) -> (r: String)
    ensures
        r@ == escaped(s@),
{
    let chars = chars_of(s);
    let mut r = String::new();
    let mut i: usize = 0;
    while i < chars.len()
        invariant
            chars@ == s@,
            i <= chars@.len(),
            r@ == escaped(chars@.take(i as int)),
        decreases chars@.len() - i,
    {
        let c = chars[i];
        let code: u32 = c as u32;
        let ghost before = r@;
        if c == '\\' {
            r.push('\\');
            r.push('\\');
        } else if c == '\n' {
            r.push('\\');
            r.push('n');
        } else if c == '\r' {
            r.push('\\');
            r.push('r');
        } else if c == '\t' {
            r.push('\\');
            r.push('t');
        } else if code < 0x20 || code == 0x7F {
            r.push('\\');
            r.push('x');
            r.append(hex_string(code, 2).as_str());
        } else if code < 0x80 {
            r.push(c);
        } else if code <= 0xFFFF {
            r.push('\\');
            r.push('u');
            r.append(hex_string(code, 4).as_str());
        } else {
            r.push('\\');
            r.push('U');
            r.append(hex_string(code, 8).as_str());
        }
        assert(r@ =~= before + escaped_char(c));
        i = i + 1;
        assert(chars@.take(i as int).drop_last() =~= chars@.take(i - 1));
    }
    assert(chars@.take(chars@.len() as int) =~= chars@);
    r
}

/// Convert a literal value to its string representation for use as a case ID.
pub fn literal_to_id_string(value: &LiteralValue) -> (r: String)
    ensures
        r@ == value_id(value@),
    decreases value@,
{
    match value {
        LiteralValue::Int(i) => i64_string(*i),
        LiteralValue::Float(text) => copy(text.as_str()),
        LiteralValue::String(s) => ascii_escape_string(s.as_str()),
        LiteralValue::Bool(b) => if *b {
            copy("True")
        } else {
            copy("False")
        },
        LiteralValue::NoneValue => copy("None"),
        LiteralValue::Sequence(list) => {
            let mut parts: Vec<String> = Vec::new();
            let mut i: usize = 0;
            while i < list.len()
                invariant
                    i <= list@.len(),
                    parts@.len() == i,
                    value == LiteralValue::Sequence(*list),
                    forall|j: int| 0 <= j < i ==> (#[trigger] parts@[j])@ == value_id(list@[j]@),
                decreases list@.len() - i,
            {
                proof {
                        lemma_element_is_smaller(value@, i as int);
                    }
                parts.push(literal_to_id_string(&list[i]));
                i = i + 1;
            }
            assert(texts(parts@) =~= value_ids(value_views(list@)));
            join(parts.as_slice(), "-")
        },
        LiteralValue::Opaque => String::new(),
        LiteralValue::EnumMember { class_name, member_name } => {
            let mut r = copy(class_name.as_str());
            r.push('.');
            r.append(member_name.as_str());
            assert(r@ =~= class_name@ + seq!['.'] + member_name@);
            r
        },
    }
}

// ---------------------------------------------------------------------------------------------
// Decorator specifications and their expansion
// ---------------------------------------------------------------------------------------------
/// Specification for a single `@cases` or `@parametrize` decorator.
#[derive(Debug, Clone)]
pub struct CasesSpec {
    /// Argument names, e.g., `["x"]` or `["x", "y"]`.
    pub argnames: Vec<String>,
    /// Argument values as literals.
    pub argvalues: Vec<LiteralValue>,
    /// Auto-generated IDs for each value (from literal or resolved source path).
    /// Same length as `argvalues`.
    pub value_ids: Vec<String>,
    /// Optional custom IDs for each case (overrides `value_ids`).
    pub ids: Option<Vec<String>>,
}

/// View of a [`CasesSpec`].
pub ghost struct SpecView {
    pub argnames: Seq<Seq<char>>,
    pub argvalues: Seq<ValueView>,
    pub value_ids: Seq<Seq<char>>,
    pub ids: Option<Seq<Seq<char>>>,
}

impl CasesSpec {
    pub open spec fn view(&self) -> SpecView {
        SpecView {
            argnames: texts(self.argnames@),
            argvalues: value_views(self.argvalues@),
            value_ids: texts(self.value_ids@),
            ids: match self.ids {
                Some(ids) => Some(texts(ids@)),
                None => None,
            },
        }
    }

    /// A specification with the same contents.
    pub fn copy(&self) -> (r: CasesSpec)
        ensures
            r@ == self@,
    {
        CasesSpec {
            argnames: copy_all(self.argnames.as_slice()),
            argvalues: copy_values(self.argvalues.as_slice()),
            value_ids: copy_all(self.value_ids.as_slice()),
            ids: match &self.ids {
                Some(ids) => Some(copy_all(ids.as_slice())),
                None => None,
            },
        }
    }
}

/// The views of a list of specifications.
pub open spec fn spec_views(list: Seq<CasesSpec>) -> Seq<SpecView> {
    Seq::new(list.len(), |i: int| list[i].view())
}

/// Parsed decorator information (specs, not yet expanded).
///
/// This intermediate representation allows combining class-level and method-level
/// specs before expansion, which is necessary for proper inheritance handling.
#[derive(Debug, Clone)]
pub enum MethodCasesInfo {
    /// No `@cases` or `@parametrize` decorators found.
    NotDecorated,
    /// Successfully parsed decorator specs.
    Specs(Vec<CasesSpec>),
    /// Cannot statically parse; will fall back to base test name.
    CannotExpand(CannotExpandReason),
}

/// View of a [`MethodCasesInfo`].
pub ghost enum InfoView {
    NotDecorated,
    Specs(Seq<SpecView>),
    CannotExpand(ReasonView),
}

impl MethodCasesInfo {
    pub open spec fn view(&self) -> InfoView {
        match self {
            MethodCasesInfo::NotDecorated => InfoView::NotDecorated,
            MethodCasesInfo::Specs(specs) => InfoView::Specs(spec_views(specs@)),
            MethodCasesInfo::CannotExpand(reason) => InfoView::CannotExpand(reason.view()),
        }
    }

    /// Information with the same contents.
    pub fn copy(&self) -> (r: MethodCasesInfo)
        ensures
            r@ == self@,
    {
        match self {
            MethodCasesInfo::NotDecorated => MethodCasesInfo::NotDecorated,
            MethodCasesInfo::Specs(specs) => {
                let mut copies: Vec<CasesSpec> = Vec::new();
                extend_specs(&mut copies, specs.as_slice());
                assert(spec_views(copies@) =~= spec_views(specs@));
                MethodCasesInfo::Specs(copies)
            },
            MethodCasesInfo::CannotExpand(reason) => MethodCasesInfo::CannotExpand(reason.copy()),
        }
    }
}

/// Reason why cases could not be statically expanded.
#[derive(Debug, Clone)]
pub enum CannotExpandReason {
    /// Argvalues references a variable, e.g., `DATA`.
    VariableReference(String),
    /// Argvalues contains a function call, e.g., `get_data()`.
    FunctionCall(String),
    /// Argvalues contains a list/dict/set comprehension.
    Comprehension,
    /// Catch-all for other unsupported expressions.
    UnsupportedExpression(String),
}

/// View of a [`CannotExpandReason`].
pub ghost enum ReasonView {
    VariableReference(Seq<char>),
    FunctionCall(Seq<char>),
    Comprehension,
    UnsupportedExpression(Seq<char>),
}

/// A reason in words.
pub open spec fn reason_text(reason: ReasonView) -> Seq<char> {
    match reason {
        ReasonView::VariableReference(name) => "argvalues references variable '"@ + name
            + seq!['\''],
        ReasonView::FunctionCall(name) => "argvalues contains function call '"@ + name
            + seq!['\''],
        ReasonView::Comprehension => "argvalues contains a comprehension"@,
        ReasonView::UnsupportedExpression(what) =>
            "argvalues contains unsupported expression: "@ + what,
    }
}

impl CannotExpandReason {
    pub open spec fn view(&self) -> ReasonView {
        match self {
            CannotExpandReason::VariableReference(name) => ReasonView::VariableReference(name@),
            CannotExpandReason::FunctionCall(name) => ReasonView::FunctionCall(name@),
            CannotExpandReason::Comprehension => ReasonView::Comprehension,
            CannotExpandReason::UnsupportedExpression(what) => ReasonView::UnsupportedExpression(
                what@,
            ),
        }
    }

    /// A reason with the same contents.
    pub fn copy(&self) -> (r: CannotExpandReason)
        ensures
            r@ == self@,
    {
        match self {
            CannotExpandReason::VariableReference(name) => CannotExpandReason::VariableReference(
                copy(name.as_str()),
            ),
            CannotExpandReason::FunctionCall(name) => CannotExpandReason::FunctionCall(
                copy(name.as_str()),
            ),
            CannotExpandReason::Comprehension => CannotExpandReason::Comprehension,
            CannotExpandReason::UnsupportedExpression(what) =>
                CannotExpandReason::UnsupportedExpression(copy(what.as_str())),
        }
    }

    /// The reason in words.
    pub fn describe(&self) -> (r: String)
        ensures
            r@ == reason_text(self@),
    {
        match self {
            CannotExpandReason::VariableReference(name) => {
                let mut r = copy("argvalues references variable '");
                r.append(name.as_str());
                r.push('\'');
                assert(r@ =~= reason_text(self@));
                r
            },
            CannotExpandReason::FunctionCall(name) => {
                let mut r = copy("argvalues contains function call '");
                r.append(name.as_str());
                r.push('\'');
                assert(r@ =~= reason_text(self@));
                r
            },
            CannotExpandReason::Comprehension => copy("argvalues contains a comprehension"),
            CannotExpandReason::UnsupportedExpression(what) => {
                let mut r = copy("argvalues contains unsupported expression: ");
                r.append(what.as_str());
                r
            },
        }
    }
}

/// Result of attempting to expand test cases from decorators.
#[derive(Debug, Clone)]
pub enum CasesExpansion {
    /// No `@cases` or `@parametrize` decorators found.
    NotDecorated,
    /// Successfully expanded to multiple test cases.
    Expanded(Vec<ExpandedCase>),
    /// Cannot statically expand; fall back to base test name.
    CannotExpand(CannotExpandReason),
}

/// View of a [`CasesExpansion`]: the cases are seen as their IDs.
pub ghost enum ExpansionView {
    NotDecorated,
    Expanded(Seq<Seq<char>>),
    CannotExpand(ReasonView),
}

/// A single expanded test case.
#[derive(Debug, Clone)]
pub struct ExpandedCase {
    /// The case ID suffix, e.g., `"0"`, `"a-b"`, `"my_custom_id"`.
    pub case_id: String,
}

/// The IDs of a list of cases.
pub open spec fn case_ids(cases: Seq<ExpandedCase>) -> Seq<Seq<char>> {
    Seq::new(cases.len(), |i: int| cases[i].case_id@)
}

impl CasesExpansion {
    pub open spec fn view(&self) -> ExpansionView {
        match self {
            CasesExpansion::NotDecorated => ExpansionView::NotDecorated,
            CasesExpansion::Expanded(cases) => ExpansionView::Expanded(case_ids(cases@)),
            CasesExpansion::CannotExpand(reason) => ExpansionView::CannotExpand(reason@),
        }
    }

    /// An expansion with the same contents.
    pub fn copy(&self) -> (r: CasesExpansion)
        ensures
            r@ == self@,
    {
        match self {
            CasesExpansion::NotDecorated => CasesExpansion::NotDecorated,
            CasesExpansion::Expanded(cases) => {
                let mut copies: Vec<ExpandedCase> = Vec::new();
                let mut i: usize = 0;
                while i < cases.len()
                    invariant
                        i <= cases@.len(),
                        copies@.len() == i,
                        forall|j: int|
                            0 <= j < i ==> (#[trigger] copies@[j]).case_id@ == cases@[j].case_id@,
                    decreases cases@.len() - i,
                {
                    copies.push(ExpandedCase { case_id: copy(cases[i].case_id.as_str()) });
                    i = i + 1;
                }
                assert(case_ids(copies@) =~= case_ids(cases@));
                CasesExpansion::Expanded(copies)
            },
            CasesExpansion::CannotExpand(reason) => CasesExpansion::CannotExpand(reason.copy()),
        }
    }
}

fn extend_specs(list: &mut Vec<CasesSpec>, more: &[CasesSpec])
    ensures
        spec_views(final(list)@) == spec_views(old(list)@) + spec_views(more@),
{
    let ghost start = list@;
    let mut i: usize = 0;
    while i < more.len()
        invariant
            i <= more@.len(),
            list@.len() == start.len() + i,
            forall|j: int| 0 <= j < start.len() ==> list@[j] == start[j],
            forall|j: int|
                #![trigger list@[j]]
                start.len() <= j < start.len() + i ==> list@[j]@ == more@[j - start.len()]@,
        decreases more@.len() - i,
    {
        list.push(more[i].copy());
        i = i + 1;
    }
    assert(spec_views(list@) =~= spec_views(start) + spec_views(more@));
}

/// The IDs that a single specification gives its cases. Custom IDs override everything; where
/// there are fewer of them than values, the others are numbered.
pub open spec fn spec_ids(spec: SpecView) -> Seq<Seq<char>> {
    match spec.ids {
        Some(ids) => Seq::new(
            spec.argvalues.len(),
            |i: int|
                if i < ids.len() {
                    ids[i]
                } else {
                    nat_text(i as nat)
                },
        ),
        None => spec.value_ids,
    }
}

/// Expand a single spec into case IDs.
pub fn expand_single_spec(spec: &CasesSpec) -> (r: Vec<String>)
    ensures
        texts(r@) == spec_ids(spec@),
{
    match &spec.ids {
        Some(ids) => {
            let mut r: Vec<String> = Vec::new();
            let mut i: usize = 0;
            while i < spec.argvalues.len()
                invariant
                    i <= spec.argvalues@.len(),
                    r@.len() == i,
                    spec.ids == Some(*ids),
                    forall|j: int| 0 <= j < i ==> (#[trigger] r@[j])@ == spec_ids(spec@)[j],
                decreases spec.argvalues@.len() - i,
            {
                if i < ids.len() {
                    r.push(copy(ids[i].as_str()));
                } else {
                    r.push(usize_string(i));
                }
                i = i + 1;
            }
            assert(texts(r@) =~= spec_ids(spec@));
            r
        },
        None => copy_all(spec.value_ids.as_slice()),
    }
}

/// Every row of `rows` with every item of `items` behind it; the items vary fastest.
pub open spec fn each_with_each(rows: Seq<Seq<Seq<char>>>, items: Seq<Seq<char>>) -> Seq<
    Seq<Seq<char>>,
> {
    Seq::new(
        rows.len() * items.len(),
        |m: int| rows[m / items.len() as int].push(items[m % items.len() as int]),
    )
}

/// All ways to take one item of each list, the last list varying fastest.
pub open spec fn combinations(lists: Seq<Seq<Seq<char>>>) -> Seq<Seq<Seq<char>>>
    decreases lists.len(),
{
    if lists.len() == 0 {
        seq![Seq::<Seq<char>>::empty()]
    } else {
        each_with_each(combinations(lists.drop_last()), lists.last())
    }
}

/// The rows written as IDs, their parts joined by `-`.
pub open spec fn row_ids(rows: Seq<Seq<Seq<char>>>) -> Seq<Seq<char>> {
    Seq::new(rows.len(), |i: int| joined(rows[i], "-"@))
}

/// How often `id` stands in `ids`.
pub open spec fn occurrences(ids: Seq<Seq<char>>, id: Seq<char>) -> nat
    decreases ids.len(),
{
    if ids.len() == 0 {
        0
    } else {
        occurrences(ids.drop_last(), id) + if ids.last() == id {
            1nat
        } else {
            0nat
        }
    }
}

/// `id`, marked with `_n` where it stands for the `n`-th repetition.
pub open spec fn marked(id: Seq<char>, repetition: nat) -> Seq<char> {
    if repetition == 0 {
        id
    } else {
        id + seq!['_'] + nat_text(repetition)
    }
}

/// The IDs with each repetition marked by how often the same ID came before it.
pub open spec fn deduplicated(ids: Seq<Seq<char>>) -> Seq<Seq<char>> {
    Seq::new(ids.len(), |i: int| marked(ids[i], occurrences(ids.take(i), ids[i])))
}

/// The ID lists of the specifications, the innermost decorator (the last) first.
pub open spec fn spec_id_lists(specs: Seq<SpecView>) -> Seq<Seq<Seq<char>>> {
    Seq::new(specs.len(), |i: int| spec_ids(specs[specs.len() - 1 - i]))
}

/// The IDs of the cases that stacked specifications expand to.
pub open spec fn expanded_ids(specs: Seq<SpecView>) -> Seq<Seq<char>> {
    if specs.len() == 0 {
        seq![]
    } else {
        deduplicated(row_ids(combinations(spec_id_lists(specs))))
    }
}

/// Deduplicate IDs by adding `_1`, `_2` suffixes for duplicates.
pub fn deduplicate_ids(ids: Vec<String>) -> (r: Vec<String>)
    ensures
        texts(r@) == deduplicated(texts(ids@)),
{
    let ghost all = texts(ids@);
    let mut r: Vec<String> = Vec::new();
    let mut i: usize = 0;
    while i < ids.len()
        invariant
            i <= ids@.len(),
            all == texts(ids@),
            r@.len() == i,
            forall|j: int| 0 <= j < i ==> (#[trigger] r@[j])@ == deduplicated(all)[j],
        decreases ids@.len() - i,
    {
        let mut count: usize = 0;
        let mut j: usize = 0;
        assert(all.take(0) =~= Seq::<Seq<char>>::empty());
        while j < i
            invariant
                j <= i < ids@.len(),
                all == texts(ids@),
                count <= j,
                count == occurrences(all.take(j as int), all[i as int]),
            decreases i - j,
        {
            assert(all.take(j + 1).drop_last() =~= all.take(j as int));
            if same(ids[j].as_str(), ids[i].as_str()) {
                count = count + 1;
            }
            j = j + 1;
        }
        let mut id = copy(ids[i].as_str());
        if count > 0 {
            id.push('_');
            id.append(usize_string(count).as_str());
            assert(id@ =~= marked(all[i as int], count as nat));
        }
        r.push(id);
        i = i + 1;
    }
    assert(texts(r@) =~= deduplicated(all));
    r
}

fn push_onto_row(row: &[String], id: &str) -> (r: Vec<String>)
    ensures
        texts(r@) == texts(row@).push(id@),
{
    let mut r = copy_all(row);
    let ghost before = r@;
    r.push(copy(id));
    assert(texts(r@) =~= texts(before).push(id@));
    r
}

/// Every row with every item behind it.
fn pair_rows(rows: &Vec<Vec<String>>, items: &Vec<String>) -> (r: Vec<Vec<String>>)
    ensures
        text_lists(r@) == each_with_each(text_lists(rows@), texts(items@)),
{
    let ghost all = each_with_each(text_lists(rows@), texts(items@));
    let ghost n = items@.len() as int;
    let mut r: Vec<Vec<String>> = Vec::new();
    let mut k: usize = 0;
    assert(0 * n == 0) by (nonlinear_arith);
    while k < rows.len()
        invariant
            k <= rows@.len(),
            n == items@.len(),
            all == each_with_each(text_lists(rows@), texts(items@)),
            r@.len() == k * n,
            k * n <= rows@.len() * n,
            forall|m: int| 0 <= m < r@.len() ==> texts((#[trigger] r@[m])@) == all[m],
        decreases rows@.len() - k,
    {
        let mut j: usize = 0;
        assert((k + 1) * n == k * n + n && (k + 1) * n <= rows@.len() * n) by (nonlinear_arith)
            requires
                k < rows@.len(),
                n >= 0,
        ;
        while j < items.len()
            invariant
                k < rows@.len(),
                j <= items@.len(),
                n == items@.len(),
                all == each_with_each(text_lists(rows@), texts(items@)),
                r@.len() == k * n + j,
                k * n + n <= rows@.len() * n,
                forall|m: int| 0 <= m < r@.len() ==> texts((#[trigger] r@[m])@) == all[m],
            decreases items@.len() - j,
        {
            proof {
                lemma_fundamental_div_mod_converse(k * n + j, n, k as int, j as int);
                assert(all[k * n + j] == text_lists(rows@)[k as int].push(
                    texts(items@)[j as int],
                ));
            }
            r.push(push_onto_row(rows[k].as_slice(), items[j].as_str()));
            j = j + 1;
        }
        k = k + 1;
    }
    assert(text_lists(r@) =~= all);
    r
}

/// Expand cases specs into individual test cases using cartesian product.
pub fn expand_cases(specs: &[CasesSpec]) -> (r: Vec<ExpandedCase>)
    ensures
        case_ids(r@) == expanded_ids(spec_views(specs@)),
{
    if specs.len() == 0 {
        let r: Vec<ExpandedCase> = Vec::new();
        assert(case_ids(r@) =~= Seq::<Seq<char>>::empty());
        return r;
    }
    let ghost lists = spec_id_lists(spec_views(specs@));
    let mut rows: Vec<Vec<String>> = Vec::new();
    rows.push(Vec::new());
    let mut i: usize = 0;
    proof {
        assert(lists.take(0) =~= Seq::<Seq<Seq<char>>>::empty());
        assert(texts(rows@[0]@) =~= Seq::<Seq<char>>::empty());
        assert(text_lists(rows@) =~= combinations(lists.take(0)));
    }
    // Innermost decorator first (bottom-to-top order).
    while i < specs.len()
        invariant
            i <= specs@.len(),
            lists == spec_id_lists(spec_views(specs@)),
            text_lists(rows@) == combinations(lists.take(i as int)),
        decreases specs@.len() - i,
    {
        let ids = expand_single_spec(&specs[specs.len() - 1 - i]);
        rows = pair_rows(&rows, &ids);
        i = i + 1;
        proof {
            assert(lists.take(i as int).drop_last() =~= lists.take(i - 1));
            assert(lists.take(i as int).last() == texts(ids@));
        }
    }
    assert(lists.take(lists.len() as int) =~= lists);
    let mut ids: Vec<String> = Vec::new();
    let mut k: usize = 0;
    while k < rows.len()
        invariant
            k <= rows@.len(),
            ids@.len() == k,
            forall|j: int|
                0 <= j < k ==> (#[trigger] ids@[j])@ == row_ids(text_lists(rows@))[j],
        decreases rows@.len() - k,
    {
        ids.push(join(rows[k].as_slice(), "-"));
        k = k + 1;
    }
    assert(texts(ids@) =~= row_ids(text_lists(rows@)));
    let unique = deduplicate_ids(ids);
    let mut r: Vec<ExpandedCase> = Vec::new();
    let mut m: usize = 0;
    while m < unique.len()
        invariant
            m <= unique@.len(),
            r@.len() == m,
            forall|j: int| 0 <= j < m ==> (#[trigger] r@[j]).case_id@ == unique@[j]@,
        decreases unique@.len() - m,
    {
        r.push(ExpandedCase { case_id: copy(unique[m].as_str()) });
        m = m + 1;
    }
    assert(case_ids(r@) =~= texts(unique@));
    r
}

/// The specifications that some information holds.
pub open spec fn specs_of(info: InfoView) -> Seq<SpecView> {
    match info {
        InfoView::Specs(specs) => specs,
        _ => seq![],
    }
}

/// What a class's and a method's decorators together expand to.
pub open spec fn combined_expansion(class_info: InfoView, method_info: InfoView) -> ExpansionView {
    match class_info {
        InfoView::CannotExpand(reason) => ExpansionView::CannotExpand(reason),
        _ => match method_info {
            InfoView::CannotExpand(reason) => ExpansionView::CannotExpand(reason),
            _ => {
                let specs = specs_of(class_info) + specs_of(method_info);
                if specs.len() == 0 {
                    ExpansionView::NotDecorated
                } else {
                    ExpansionView::Expanded(expanded_ids(specs))
                }
            },
        },
    }
}

/// Combine class-level and method-level specs, then expand.
///
/// The class's specs stand outside the method's: in a case ID the method's part comes first, and
/// the class's part varies fastest. This matches pytest's behavior for class-level `@parametrize`
/// decorators.
pub fn combine_and_expand_specs(
    class_info: &MethodCasesInfo,
    method_info: &MethodCasesInfo,
) -> (r: CasesExpansion)
    ensures
        r@ == combined_expansion(class_info@, method_info@),
{
    if let MethodCasesInfo::CannotExpand(reason) = class_info {
        return CasesExpansion::CannotExpand(reason.copy());
    }
    if let MethodCasesInfo::CannotExpand(reason) = method_info {
        return CasesExpansion::CannotExpand(reason.copy());
    }
    let mut specs: Vec<CasesSpec> = Vec::new();
    assert(spec_views(specs@) =~= Seq::<SpecView>::empty());
    if let MethodCasesInfo::Specs(list) = class_info {
        extend_specs(&mut specs, list.as_slice());
    }
    assert(spec_views(specs@) =~= specs_of(class_info@));
    if let MethodCasesInfo::Specs(list) = method_info {
        extend_specs(&mut specs, list.as_slice());
    }
    assert(spec_views(specs@) =~= specs_of(class_info@) + specs_of(method_info@));
    if specs.len() == 0 {
        CasesExpansion::NotDecorated
    } else {
        CasesExpansion::Expanded(expand_cases(specs.as_slice()))
    }
}

// ---------------------------------------------------------------------------------------------
// Reports on tests that cannot be expanded
// ---------------------------------------------------------------------------------------------
/// Prefix that collectors scan for. Uncolored, one line per unexpanded test.
pub const CANNOT_EXPAND_MARKER: &'static str = "rtest-cannot-expand:";

/// The warning on a test that cannot be expanded.
pub open spec fn warning_text(nodeid: Seq<char>, reason: ReasonView) -> Seq<char> {
    "warning: Cannot statically expand test cases for '"@ + nodeid + "': "@ + reason_text(reason)
}

/// Format a warning message for tests that cannot be statically expanded.
pub fn format_cannot_expand_warning(nodeid: &str, reason: &CannotExpandReason) -> (r: String)
    ensures
        r@ == warning_text(nodeid@, reason@),
{
    let mut r = copy("warning: Cannot statically expand test cases for '");
    r.append(nodeid);
    r.append("': ");
    r.append(reason.describe().as_str());
    r
}

/// The record on a test that cannot be expanded.
pub open spec fn marker_text(nodeid: Seq<char>) -> Seq<char> {
    CANNOT_EXPAND_MARKER@ + seq![' '] + nodeid
}

/// Machine-readable line that sends the whole file to pytest.
pub fn format_cannot_expand_marker(nodeid: &str) -> (r: String)
    ensures
        r@ == marker_text(nodeid@),
{
    let mut r = copy(CANNOT_EXPAND_MARKER);
    r.push(' ');
    r.append(nodeid);
    assert(r@ =~= marker_text(nodeid@));
    r
}

/// The words in front of the quoted node ID of a warning.
pub open spec fn warning_words() -> Seq<char> {
    "Cannot statically expand test cases for '"@
}

/// The node ID quoted in a warning: what stands between the first occurrence of the warning's
/// words and the next quote.
pub open spec fn quoted_nodeid(message: Seq<char>) -> Option<Seq<char>> {
    match first_place(message, warning_words(), 0) {
        None => None,
        Some(at) => {
            let rest = message.skip(at + warning_words().len());
            match first_place(rest, seq!['\''], 0) {
                None => None,
                Some(end) => Some(rest.take(end)),
            }
        },
    }
}

/// Nodeid quoted in a CannotExpand warning, if any.
pub fn cannot_expand_nodeid_from_message(message: &str) -> (r: Option<&str>)
    ensures
        match r {
            Some(nodeid) => quoted_nodeid(message@) == Some(nodeid@),
            None => quoted_nodeid(message@) is None,
        },
{
    let words = chars_of("Cannot statically expand test cases for '");
    let chars = chars_of(message);
    match find(chars.as_slice(), words.as_slice()) {
        None => None,
        Some(at) => {
            assert(at + words.len() <= chars.len());
            let start: usize = at + words.len();
            let rest = string_of(chars.as_slice(), start, chars.len());
            let rest_chars = chars_of(rest.as_str());
            let quote = chars_of("'");
            proof {
                reveal_strlit("'");
                assert(quote@ =~= seq!['\'']);
                assert(rest@ =~= message@.skip(start as int));
            }
            match find(rest_chars.as_slice(), quote.as_slice()) {
                None => None,
                Some(end) => {
                    assert(message@.subrange(start as int, start + end) =~= rest@.take(
                        end as int,
                    ));
                    Some(message.substring_char(start, start + end))
                },
            }
        },
    }
}

} // verus!
