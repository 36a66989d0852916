//! Visitor that discovers tests in a single module and writes the parameters of parametrized tests
//! into their names, as in `test_add[1-2]`.
//!
//! No names are resolved here. Where the text of a parameter is only known at run time, the test is
//! marked as having uncertain parameters.

use crate::python_discovery::cases::{
    ascii_escape_string, escaped, CasesExpansion, ExpansionView,
};
use crate::python_discovery::constants::base_exprs;
use crate::python_discovery::decorators::{string_elements, strings_from};
use crate::python_discovery::discovery::{
    class_has_init, has_init, test_views, ConfigView, TestDiscoveryConfig, TestInfo, TestView,
};
use crate::python_discovery::numbers::{
    float_repr, float_text, imaginary_repr, imaginary_text, integer_repr, integer_text,
};
use crate::python_discovery::syntax::{
    expr_views, keyword_views, stmt_views, ClassDef, ClassView, ExprView, FunctionDef, FunctionView,
    KeywordView, NumberView, PyExpr, PyKeyword, PyModule, PyNumber, PyStmt, StmtView,
};
use crate::strings::{
    chars_of, copy, copy_all, join, joined, nat_text, pieces, same, split, str_text, texts,
    trim, trimmed, usize_string,
};
use crate::table::{entry, insert, keys, names, place_of, with_entry};
use vstd::arithmetic::div_mod::lemma_fundamental_div_mod_converse;
use vstd::prelude::*;

verus! {

// ---------------------------------------------------------------------------------------------
// Decorators
// ---------------------------------------------------------------------------------------------
/// The called function is `pytest.mark.parametrize`.
pub open spec fn calls_parametrize(func: ExprView) -> bool {
    match func {
        ExprView::Attribute { value, attr } => attr == "parametrize"@ && match *value {
            ExprView::Attribute { value: inner, attr: mark } => mark == "mark"@ && *inner
                == ExprView::Name("pytest"@),
            _ => false,
        },
        _ => false,
    }
}

/// Check if an expression is pytest.mark.parametrize
pub fn is_parametrize_call(expr: &PyExpr) -> (r: bool)
    ensures
        r == calls_parametrize(expr@),
{
    match expr {
        PyExpr::Attribute { value, attr } => {
            if !same(attr.as_str(), "parametrize") {
                return false;
            }
            match &**value {
                PyExpr::Attribute { value: inner, attr: mark } => {
                    assert(value@ == (ExprView::Attribute {
                        value: Box::new(inner@),
                        attr: mark@,
                    }));
                    if !same(mark.as_str(), "mark") {
                        return false;
                    }
                    match &**inner {
                        PyExpr::Name(id) => {
                            assert(inner@ == ExprView::Name(id@));
                            same(id.as_str(), "pytest")
                        },
                        _ => {
                            assert(!(inner@ is Name));
                            false
                        },
                    }
                },
                _ => {
                    assert(!(value@ is Attribute));
                    false
                },
            }
        },
        _ => false,
    }
}

/// A call of `pytest.mark.parametrize` or of a bare `parametrize` that wraps it.
pub open spec fn is_parametrizing(e: ExprView) -> bool {
    match e {
        ExprView::Call { func, .. } => calls_parametrize(*func) || *func == ExprView::Name(
            "parametrize"@,
        ),
        _ => false,
    }
}

/// Check if an expression is any form of parametrize call
/// This includes:
/// - pytest.mark.parametrize(...)
/// - parametrize(...) - custom wrappers
pub fn is_any_parametrize_call(expr: &PyExpr) -> (r: bool)
    ensures
        r == is_parametrizing(expr@),
{
    match expr {
        PyExpr::Call { func, .. } => {
            if is_parametrize_call(func) {
                return true;
            }
            match &**func {
                PyExpr::Name(id) => {
                    assert(func@ == ExprView::Name(id@));
                    same(id.as_str(), "parametrize")
                },
                _ => {
                    assert(!(func@ is Name));
                    false
                },
            }
        },
        _ => false,
    }
}

/// One of the decorators parametrizes.
pub open spec fn any_parametrizing(decorators: Seq<ExprView>) -> bool {
    exists|i: int| 0 <= i < decorators.len() && is_parametrizing(#[trigger] decorators[i])
}

/// Check if a list of decorators has any parametrize decorator (even if we can't parse values)
pub fn has_parametrize_decorator(decorators: &[PyExpr]) -> (r: bool)
    ensures
        r == any_parametrizing(expr_views(decorators@)),
{
    let ghost views = expr_views(decorators@);
    let mut i: usize = 0;
    while i < decorators.len()
        invariant
            i <= decorators@.len(),
            views == expr_views(decorators@),
            forall|j: int| 0 <= j < i ==> !is_parametrizing(#[trigger] views[j]),
        decreases decorators@.len() - i,
    {
        assert(views[i as int] == decorators@[i as int]@);
        if is_any_parametrize_call(&decorators[i]) {
            return true;
        }
        i = i + 1;
    }
    false
}

/// Represents a parameter value and whether it needs auto-ID generation
#[derive(Debug)]
pub enum ParamValue {
    /// Simple value that can be displayed as-is (e.g., "20", "True", "alice")
    Simple(String),
    /// Complex expression that needs auto-ID (e.g., Decimal(20) -> use "a0" instead)
    Complex,
    /// Attribute access (e.g., SalesLeadEventName.ARM_RESET) - we use the full path
    /// but pytest's behavior varies (Enums keep path, string constants don't), so
    /// files with these should be marked uncertain
    AttributeAccess(String),
}

/// View of a [`ParamValue`].
pub ghost enum ParamView {
    Simple(Seq<char>),
    Complex,
    AttributeAccess(Seq<char>),
}

impl ParamValue {
    pub open spec fn view(&self) -> ParamView {
        match self {
            ParamValue::Simple(text) => ParamView::Simple(text@),
            ParamValue::Complex => ParamView::Complex,
            ParamValue::AttributeAccess(text) => ParamView::AttributeAccess(text@),
        }
    }

    fn copy(&self) -> (r: ParamValue)
        ensures
            r@ == self@,
    {
        match self {
            ParamValue::Simple(text) => ParamValue::Simple(copy(text.as_str())),
            ParamValue::Complex => ParamValue::Complex,
            ParamValue::AttributeAccess(text) => ParamValue::AttributeAccess(copy(text.as_str())),
        }
    }
}

pub open spec fn param_views(list: Seq<ParamValue>) -> Seq<ParamView> {
    Seq::new(list.len(), |i: int| list[i].view())
}

pub open spec fn param_set_views(list: Seq<Vec<ParamValue>>) -> Seq<Seq<ParamView>> {
    Seq::new(list.len(), |i: int| param_views(list[i]@))
}

/// Information about a single parametrize decorator
#[derive(Debug)]
pub struct ParametrizeInfo {
    /// Parameter names (e.g., ["a", "b", "threshold"])
    pub param_names: Vec<String>,
    /// List of parameter value tuples (formatted strings)
    pub values: Vec<Vec<ParamValue>>,
    /// Explicit IDs if provided via ids= parameter (e.g., ["case1", "case2"])
    pub explicit_ids: Option<Vec<String>>,
}

/// View of a [`ParametrizeInfo`].
pub ghost struct ParametrizeView {
    pub param_names: Seq<Seq<char>>,
    pub values: Seq<Seq<ParamView>>,
    pub explicit_ids: Option<Seq<Seq<char>>>,
}

impl ParametrizeInfo {
    pub open spec fn view(&self) -> ParametrizeView {
        ParametrizeView {
            param_names: texts(self.param_names@),
            values: param_set_views(self.values@),
            explicit_ids: match self.explicit_ids {
                Some(ids) => Some(texts(ids@)),
                None => None,
            },
        }
    }

    fn copy(&self) -> (r: ParametrizeInfo)
        ensures
            r@ == self@,
    {
        let mut values: Vec<Vec<ParamValue>> = Vec::new();
        let mut i: usize = 0;
        while i < self.values.len()
            invariant
                i <= self.values@.len(),
                values@.len() == i,
                forall|j: int|
                    0 <= j < i ==> param_views((#[trigger] values@[j])@) == param_views(
                        self.values@[j]@,
                    ),
            decreases self.values@.len() - i,
        {
            let source = &self.values[i];
            let mut row: Vec<ParamValue> = Vec::new();
            let mut k: usize = 0;
            while k < source.len()
                invariant
                    k <= source@.len(),
                    row@.len() == k,
                    forall|j: int| 0 <= j < k ==> (#[trigger] row@[j])@ == source@[j]@,
                decreases source@.len() - k,
            {
                row.push(source[k].copy());
                k = k + 1;
            }
            assert(param_views(row@) =~= param_views(source@));
            values.push(row);
            i = i + 1;
        }
        assert(param_set_views(values@) =~= param_set_views(self.values@));
        ParametrizeInfo {
            param_names: copy_all(self.param_names.as_slice()),
            values,
            explicit_ids: match &self.explicit_ids {
                Some(ids) => Some(copy_all(ids.as_slice())),
                None => None,
            },
        }
    }
}

pub open spec fn parametrize_views(list: Seq<ParametrizeInfo>) -> Seq<ParametrizeView> {
    Seq::new(list.len(), |i: int| list[i].view())
}

// ---------------------------------------------------------------------------------------------
// Values
// ---------------------------------------------------------------------------------------------
/// A dotted path: the chain of attributes from the first name on, or the last attribute alone where
/// the chain starts with something else than a name.
pub open spec fn dotted(value: ExprView, attr: Seq<char>) -> Seq<char>
    decreases value,
{
    match value {
        ExprView::Name(id) => id + seq!['.'] + attr,
        ExprView::Attribute { value: inner, attr: middle } => dotted(*inner, middle) + seq!['.']
            + attr,
        _ => attr,
    }
}

/// Build full dotted path from an attribute expression
/// e.g., SalesLeadEventName.ARM_RESET -> "SalesLeadEventName.ARM_RESET"
pub fn format_attribute_path(value: &PyExpr, attr: &str) -> (r: String)
    ensures
        r@ == dotted(value@, attr@),
    decreases value@,
{
    match value {
        PyExpr::Name(id) => {
            let mut r = copy(id.as_str());
            r.push('.');
            r.append(attr);
            assert(r@ =~= dotted(value@, attr@));
            r
        },
        PyExpr::Attribute { value: inner, attr: middle } => {
            assert(decreases_to!(value@ => value@->Attribute_value));
            let mut r = format_attribute_path(inner, middle.as_str());
            r.push('.');
            r.append(attr);
            assert(r@ =~= dotted(value@, attr@));
            r
        },
        _ => copy(attr),
    }
}

/// The text holds a character that pytest may write differently: a line break, a tab, or one
/// outside ASCII.
pub open spec fn has_special(text: Seq<char>) -> bool {
    exists|i: int| 0 <= i < text.len() && is_special(#[trigger] text[i])
}

pub open spec fn is_special(c: char) -> bool {
    c == '\n' || c == '\t' || c == '\r' || c as u32 >= 0x80
}

fn special(text: &str) -> (r: bool)
    ensures
        r == has_special(text@),
{
    let chars = chars_of(text);
    let mut i: usize = 0;
    while i < chars.len()
        invariant
            chars@ == text@,
            i <= chars@.len(),
            forall|j: int| 0 <= j < i ==> !is_special(#[trigger] text@[j]),
        decreases chars@.len() - i,
    {
        let c = chars[i];
        if c == '\n' || c == '\t' || c == '\r' || c as u32 >= 0x80 {
            assert(is_special(text@[i as int]));
            return true;
        }
        i = i + 1;
    }
    false
}

/// A parameter value as it stands in a test's name.
pub open spec fn param_of(e: ExprView) -> ParamView
    decreases e,
{
    match e {
        ExprView::NumberLiteral(NumberView::Int { text, .. }) => ParamView::Simple(
            integer_text(text),
        ),
        ExprView::NumberLiteral(NumberView::Float { scientific }) => ParamView::Simple(
            float_text(scientific),
        ),
        ExprView::NumberLiteral(NumberView::Complex { imaginary }) => ParamView::Simple(
            imaginary_text(imaginary),
        ),
        ExprView::StringLiteral(s) => if has_special(s) {
            ParamView::Complex
        } else {
            ParamView::Simple(escaped(s))
        },
        ExprView::BooleanLiteral(b) => ParamView::Simple(
            if b {
                "True"@
            } else {
                "False"@
            },
        ),
        ExprView::NoneLiteral => ParamView::Simple("None"@),
        ExprView::UnaryOp { minus, operand } => match (*operand, param_of(*operand)) {
            // The real part becomes negative too
            (
                ExprView::NumberLiteral(NumberView::Complex { imaginary }),
                _,
            ) if minus => ParamView::Simple("(-0-"@ + imaginary_text(imaginary) + ")"@),
            (_, ParamView::Simple(text)) if minus => ParamView::Simple(seq!['-'] + text),
            _ => ParamView::Complex,
        },
        ExprView::Attribute { value, attr } => ParamView::AttributeAccess(dotted(*value, attr)),
        ExprView::Name(id) => ParamView::Simple(id),
        _ => ParamView::Complex,
    }
}

/// Format a parameter value for display in test name
/// Returns ParamValue::Simple for basic types, ParamValue::Complex for objects/calls
pub fn format_param_value(expr: &PyExpr) -> (r: ParamValue)
    ensures
        r@ == param_of(expr@),
    decreases expr@,
{
    match expr {
        PyExpr::NumberLiteral(number) => match number {
            PyNumber::Int { text, .. } => ParamValue::Simple(integer_repr(text.as_str())),
            PyNumber::Float { scientific } => ParamValue::Simple(float_repr(scientific.as_str())),
            PyNumber::Complex { imaginary } => ParamValue::Simple(
                imaginary_repr(imaginary.as_str()),
            ),
        },
        PyExpr::StringLiteral(s) => {
            if special(s.as_str()) {
                ParamValue::Complex
            } else {
                ParamValue::Simple(ascii_escape_string(s.as_str()))
            }
        },
        PyExpr::BooleanLiteral(b) => if *b {
            ParamValue::Simple(copy("True"))
        } else {
            ParamValue::Simple(copy("False"))
        },
        PyExpr::NoneLiteral => ParamValue::Simple(copy("None")),
        PyExpr::UnaryOp { minus, operand } => {
            assert(decreases_to!(expr@ => expr@->operand));
            if *minus {
                if let PyExpr::NumberLiteral(PyNumber::Complex { imaginary }) = &**operand {
                    let mut text = copy("(-0-");
                    text.append(imaginary_repr(imaginary.as_str()).as_str());
                    text.append(")");
                    return ParamValue::Simple(text);
                }
                // Negative numbers are simple
                if let ParamValue::Simple(value) = format_param_value(operand) {
                    let mut text = String::new();
                    text.push('-');
                    text.append(value.as_str());
                    assert(text@ =~= seq!['-'] + value@);
                    return ParamValue::Simple(text);
                }
            }
            ParamValue::Complex
        },
        PyExpr::Attribute { value, attr } => ParamValue::AttributeAccess(
            format_attribute_path(value, attr.as_str()),
        ),
        PyExpr::Name(id) => ParamValue::Simple(copy(id.as_str())),
        _ => ParamValue::Complex,
    }
}

/// The parameters of a list of expressions.
pub open spec fn params_of(elts: Seq<ExprView>) -> Seq<ParamView> {
    Seq::new(elts.len(), |i: int| param_of(elts[i]))
}

/// The parameters of one case: a tuple of as many elements as there are parameters is taken apart.
pub open spec fn case_params(e: ExprView, count: nat) -> Seq<ParamView> {
    match e {
        ExprView::Tuple(elts) if elts.len() == count && count > 1 => params_of(elts),
        _ => seq![param_of(e)],
    }
}

/// The parameters of the cases that a list gives.
pub open spec fn param_sets(e: ExprView, count: nat) -> Option<Seq<Seq<ParamView>>> {
    match e {
        ExprView::List(elts) => Some(Seq::new(elts.len(), |i: int| case_params(elts[i], count))),
        _ => None,
    }
}

fn extract_case(elt: &PyExpr, param_count: usize) -> (r: Vec<ParamValue>)
    ensures
        param_views(r@) == case_params(elt@, param_count as nat),
{
    let mut set: Vec<ParamValue> = Vec::new();
    if let PyExpr::Tuple(parts) = elt {
        if parts.len() == param_count && param_count > 1 {
            let ghost views = expr_views(parts@);
            let mut k: usize = 0;
            while k < parts.len()
                invariant
                    k <= parts@.len(),
                    views == expr_views(parts@),
                    set@.len() == k,
                    forall|j: int| 0 <= j < k ==> (#[trigger] set@[j])@ == param_of(views[j]),
                decreases parts@.len() - k,
            {
                assert(views[k as int] == parts@[k as int]@);
                set.push(format_param_value(&parts[k]));
                k = k + 1;
            }
            assert(param_views(set@) =~= params_of(views));
            return set;
        }
    }
    // Single parameter or tuple as value: treat as single value
    set.push(format_param_value(elt));
    proof {
        assert(param_views(set@) =~= seq![param_of(elt@)]);
        if elt@ is Tuple {
            assert(expr_views(elt->Tuple_0@).len() == elt->Tuple_0@.len());
        }
    }
    set
}

/// Extract parameter values from the second argument (list of values)
pub fn extract_param_values(expr: &PyExpr, param_count: usize) -> (r: Option<Vec<Vec<ParamValue>>>)
    ensures
        match r {
            Some(sets) => param_sets(expr@, param_count as nat) == Some(param_set_views(sets@)),
            None => param_sets(expr@, param_count as nat) is None,
        },
{
    let elts = match expr {
        PyExpr::List(elts) => elts,
        _ => {
            return None;
        },
    };
    let ghost views = expr_views(elts@);
    let mut sets: Vec<Vec<ParamValue>> = Vec::new();
    let mut i: usize = 0;
    while i < elts.len()
        invariant
            i <= elts@.len(),
            views == expr_views(elts@),
            sets@.len() == i,
            forall|j: int|
                0 <= j < i ==> param_views((#[trigger] sets@[j])@) == case_params(
                    views[j],
                    param_count as nat,
                ),
        decreases elts@.len() - i,
    {
        assert(views[i as int] == elts@[i as int]@);
        sets.push(extract_case(&elts[i], param_count));
        i = i + 1;
    }
    assert(param_set_views(sets@) =~= Seq::new(
        views.len(),
        |i: int| case_params(views[i], param_count as nat),
    ));
    Some(sets)
}

/// The trimmed pieces of a comma-separated list.
pub open spec fn trimmed_pieces(s: Seq<char>) -> Seq<Seq<char>> {
    Seq::new(pieces(s, ',').len(), |i: int| trimmed(pieces(s, ',')[i]))
}

/// The parameter names that the first argument gives.
pub open spec fn param_names_of(e: ExprView) -> Option<Seq<Seq<char>>> {
    match e {
        ExprView::StringLiteral(s) => Some(trimmed_pieces(s)),
        _ => None,
    }
}

/// Extract parameter names from the first argument
pub fn extract_param_names(expr: &PyExpr) -> (r: Option<Vec<String>>)
    ensures
        match r {
            Some(list) => param_names_of(expr@) == Some(texts(list@)),
            None => param_names_of(expr@) is None,
        },
{
    match expr {
        PyExpr::StringLiteral(s) => {
            let parts = split(s.as_str(), ',');
            let ghost all = pieces(s@, ',');
            let mut list: Vec<String> = Vec::new();
            let mut i: usize = 0;
            while i < parts.len()
                invariant
                    i <= parts@.len(),
                    all == texts(parts@),
                    list@.len() == i,
                    forall|j: int| 0 <= j < i ==> (#[trigger] list@[j])@ == trimmed(all[j]),
                decreases parts@.len() - i,
            {
                assert(all[i as int] == parts@[i as int]@);
                list.push(trim(parts[i].as_str()));
                i = i + 1;
            }
            assert(texts(list@) =~= trimmed_pieces(s@));
            Some(list)
        },
        _ => None,
    }
}

/// The texts of a list or tuple of string literals.
pub open spec fn id_list(e: ExprView) -> Option<Seq<Seq<char>>> {
    match e {
        ExprView::List(elts) => strings_from(elts, 0, seq![]),
        ExprView::Tuple(elts) => strings_from(elts, 0, seq![]),
        _ => None,
    }
}

/// Extract a list of string IDs from an expression
pub fn extract_ids_list(expr: &PyExpr) -> (r: Option<Vec<String>>)
    ensures
        match r {
            Some(list) => id_list(expr@) == Some(texts(list@)),
            None => id_list(expr@) is None,
        },
{
    match expr {
        // If any ID is not a string literal, fall back to auto-generation
        PyExpr::List(elts) => string_elements(elts.as_slice()),
        PyExpr::Tuple(elts) => string_elements(elts.as_slice()),
        _ => None,
    }
}

/// The explicit IDs that the first `ids` argument from `i` on gives.
pub open spec fn explicit_ids_from(keywords: Seq<KeywordView>, i: int) -> Option<Seq<Seq<char>>>
    decreases keywords.len() - i,
{
    if i < 0 || i >= keywords.len() {
        None
    } else if keywords[i].arg == Some("ids"@) {
        id_list(keywords[i].value)
    } else {
        explicit_ids_from(keywords, i + 1)
    }
}

/// Extract explicit IDs from the ids= keyword argument
pub fn extract_explicit_ids(keywords: &[PyKeyword]) -> (r: Option<Vec<String>>)
    ensures
        match r {
            Some(list) => explicit_ids_from(keyword_views(keywords@), 0) == Some(texts(list@)),
            None => explicit_ids_from(keyword_views(keywords@), 0) is None,
        },
{
    let ghost views = keyword_views(keywords@);
    let mut i: usize = 0;
    while i < keywords.len()
        invariant
            i <= keywords@.len(),
            views == keyword_views(keywords@),
            explicit_ids_from(views, 0) == explicit_ids_from(views, i as int),
        decreases keywords@.len() - i,
    {
        assert(views[i as int] == keywords@[i as int]@);
        if let Some(arg) = &keywords[i].arg {
            if same(arg.as_str(), "ids") {
                return extract_ids_list(&keywords[i].value);
            }
        }
        i = i + 1;
    }
    None
}

/// What a `pytest.mark.parametrize` decorator gives, where it can be read.
pub open spec fn parametrize_of(e: ExprView) -> Option<ParametrizeView> {
    match e {
        ExprView::Call { func, args, keywords } => if calls_parametrize(*func) && args.len() >= 2 {
            match param_names_of(args[0]) {
                None => None,
                Some(param_names) => match param_sets(args[1], param_names.len()) {
                    None => None,
                    Some(values) => Some(
                        ParametrizeView {
                            param_names,
                            values,
                            explicit_ids: explicit_ids_from(keywords, 0),
                        },
                    ),
                },
            }
        } else {
            None
        },
        _ => None,
    }
}

/// Parse a single decorator expression to see if it's pytest.mark.parametrize
pub fn parse_parametrize_decorator(expr: &PyExpr) -> (r: Option<ParametrizeInfo>)
    ensures
        match r {
            Some(info) => parametrize_of(expr@) == Some(info@),
            None => parametrize_of(expr@) is None,
        },
{
    match expr {
        PyExpr::Call { func, args, keywords } => {
            if is_parametrize_call(func) && args.len() >= 2 {
                assert(expr_views(args@)[0] == args@[0]@);
                assert(expr_views(args@)[1] == args@[1]@);
                let param_names = extract_param_names(&args[0])?;
                let values = extract_param_values(&args[1], param_names.len())?;
                let explicit_ids = extract_explicit_ids(keywords.as_slice());
                Some(ParametrizeInfo { param_names, values, explicit_ids })
            } else {
                None
            }
        },
        _ => None,
    }
}

/// The parametrizations among a list of decorators.
pub open spec fn parametrizations(decorators: Seq<ExprView>) -> Seq<ParametrizeView>
    decreases decorators.len(),
{
    if decorators.len() == 0 {
        seq![]
    } else {
        let before = parametrizations(decorators.drop_last());
        match parametrize_of(decorators.last()) {
            Some(info) => before.push(info),
            None => before,
        }
    }
}

/// Extract parametrize decorators from a function or class
pub fn extract_parametrize_decorators(decorators: &[PyExpr]) -> (r: Vec<ParametrizeInfo>)
    ensures
        parametrize_views(r@) == parametrizations(expr_views(decorators@)),
{
    let ghost views = expr_views(decorators@);
    let mut r: Vec<ParametrizeInfo> = Vec::new();
    let mut i: usize = 0;
    proof {
        assert(views.take(0) =~= Seq::<ExprView>::empty());
        assert(parametrize_views(r@) =~= Seq::<ParametrizeView>::empty());
    }
    while i < decorators.len()
        invariant
            i <= decorators@.len(),
            views == expr_views(decorators@),
            parametrize_views(r@) == parametrizations(views.take(i as int)),
        decreases decorators@.len() - i,
    {
        proof {
            assert(views.take(i + 1).drop_last() =~= views.take(i as int));
            assert(views.take(i + 1).last() == decorators@[i as int]@);
        }
        if let Some(info) = parse_parametrize_decorator(&decorators[i]) {
            let ghost before = r@;
            let ghost added = info@;
            r.push(info);
            assert(parametrize_views(r@) =~= parametrize_views(before).push(added));
        }
        i = i + 1;
    }
    assert(views.take(views.len() as int) =~= views);
    r
}

// ---------------------------------------------------------------------------------------------
// Names of cases
// ---------------------------------------------------------------------------------------------
/// The texts of the values of one case, up to the number of names: complex values are named by
/// their parameter and the number of the case.
pub open spec fn set_parts(
    param_names: Seq<Seq<char>>,
    values: Seq<ParamView>,
    set_index: nat,
) -> Seq<Seq<char>> {
    Seq::new(
        if values.len() < param_names.len() {
            values.len()
        } else {
            param_names.len()
        },
        |i: int|
            match values[i] {
                ParamView::Simple(text) => text,
                ParamView::AttributeAccess(text) => text,
                ParamView::Complex => param_names[i] + nat_text(set_index),
            },
    )
}

/// Format a single parameter set with auto-ID generation for complex values
pub fn format_param_set(
    param_names: &[String],
    values: &[ParamValue],
    set_index: usize,
) -> (r: String)
    ensures
        r@ == joined(
            set_parts(texts(param_names@), param_views(values@), set_index as nat),
            "-"@,
        ),
{
    let ghost wanted = set_parts(texts(param_names@), param_views(values@), set_index as nat);
    let mut parts: Vec<String> = Vec::new();
    let mut i: usize = 0;
    while i < values.len() && i < param_names.len()
        invariant
            i <= values@.len(),
            i <= param_names@.len(),
            wanted == set_parts(texts(param_names@), param_views(values@), set_index as nat),
            parts@.len() == i,
            forall|j: int| 0 <= j < i ==> (#[trigger] parts@[j])@ == wanted[j],
        decreases values@.len() - i,
    {
        assert(param_views(values@)[i as int] == values@[i as int]@);
        assert(texts(param_names@)[i as int] == param_names@[i as int]@);
        let part = match &values[i] {
            ParamValue::Simple(text) => copy(text.as_str()),
            ParamValue::AttributeAccess(text) => copy(text.as_str()),
            ParamValue::Complex => {
                let mut id = copy(param_names[i].as_str());
                id.append(usize_string(set_index).as_str());
                id
            },
        };
        assert(part@ == wanted[i as int]);
        parts.push(part);
        i = i + 1;
    }
    assert(texts(parts@) =~= wanted);
    join(parts.as_slice(), "-")
}

/// The ID of a case: its explicit ID, where there is one.
pub open spec fn set_id(info: ParametrizeView, set_index: int) -> Seq<char> {
    match info.explicit_ids {
        Some(ids) if set_index < ids.len() => ids[set_index],
        _ => joined(
            set_parts(info.param_names, info.values[set_index], set_index as nat),
            "-"@,
        ),
    }
}

/// Format a parameter set, using explicit ID if available
pub fn format_param_set_with_id(info: &ParametrizeInfo, set_index: usize) -> (r: String)
    requires
        set_index < info.values@.len(),
    ensures
        r@ == set_id(info@, set_index as int),
{
    if let Some(ids) = &info.explicit_ids {
        if set_index < ids.len() {
            return copy(ids[set_index].as_str());
        }
    }
    format_param_set(info.param_names.as_slice(), info.values[set_index].as_slice(), set_index)
}

/// The IDs of a decorator's cases.
pub open spec fn set_ids(info: ParametrizeView) -> Seq<Seq<char>> {
    Seq::new(info.values.len(), |i: int| set_id(info, i))
}

/// Each of `heads` in front of each of `tails`, with `-` between them; the heads vary fastest.
pub open spec fn prefixed_each(tails: Seq<Seq<char>>, heads: Seq<Seq<char>>) -> Seq<Seq<char>> {
    Seq::new(
        tails.len() * heads.len(),
        |m: int| heads[m % heads.len() as int] + seq!['-'] + tails[m / heads.len() as int],
    )
}

/// The IDs of the combinations of stacked decorators.
pub open spec fn combination_ids(infos: Seq<ParametrizeView>) -> Seq<Seq<char>>
    decreases infos.len(),
{
    if infos.len() == 0 {
        seq![]
    } else if infos.len() == 1 {
        set_ids(infos[0])
    } else {
        prefixed_each(combination_ids(infos.drop_last()), set_ids(infos.last()))
    }
}

fn ids_of(info: &ParametrizeInfo) -> (r: Vec<String>)
    ensures
        texts(r@) == set_ids(info@),
{
    let mut r: Vec<String> = Vec::new();
    let mut i: usize = 0;
    while i < info.values.len()
        invariant
            i <= info.values@.len(),
            r@.len() == i,
            forall|j: int| 0 <= j < i ==> (#[trigger] r@[j])@ == set_id(info@, j),
        decreases info.values@.len() - i,
    {
        r.push(format_param_set_with_id(info, i));
        i = i + 1;
    }
    assert(texts(r@) =~= set_ids(info@));
    r
}

fn prefix_each(tails: &Vec<String>, heads: &Vec<String>) -> (r: Vec<String>)
    ensures
        texts(r@) == prefixed_each(texts(tails@), texts(heads@)),
{
    let ghost all = prefixed_each(texts(tails@), texts(heads@));
    let ghost n = heads@.len() as int;
    let mut r: Vec<String> = Vec::new();
    let mut k: usize = 0;
    assert(0 * n == 0) by (nonlinear_arith);
    while k < tails.len()
        invariant
            k <= tails@.len(),
            n == heads@.len(),
            all == prefixed_each(texts(tails@), texts(heads@)),
            r@.len() == k * n,
            k * n <= tails@.len() * n,
            forall|m: int| 0 <= m < r@.len() ==> (#[trigger] r@[m])@ == all[m],
        decreases tails@.len() - k,
    {
        let mut j: usize = 0;
        assert((k + 1) * n == k * n + n && (k + 1) * n <= tails@.len() * n) by (nonlinear_arith)
            requires
                k < tails@.len(),
                n >= 0,
        ;
        while j < heads.len()
            invariant
                k < tails@.len(),
                j <= heads@.len(),
                n == heads@.len(),
                all == prefixed_each(texts(tails@), texts(heads@)),
                r@.len() == k * n + j,
                k * n + n <= tails@.len() * n,
                forall|m: int| 0 <= m < r@.len() ==> (#[trigger] r@[m])@ == all[m],
            decreases heads@.len() - j,
        {
            let mut id = copy(heads[j].as_str());
            id.push('-');
            id.append(tails[k].as_str());
            proof {
                lemma_fundamental_div_mod_converse(k * n + j, n, k as int, j as int);
                assert(texts(heads@)[j as int] == heads@[j as int]@);
                assert(texts(tails@)[k as int] == tails@[k as int]@);
                assert(id@ =~= all[k * n + j]);
            }
            r.push(id);
            j = j + 1;
        }
        k = k + 1;
    }
    assert(texts(r@) =~= all);
    r
}

/// Generate all parameter combinations from multiple parametrize decorators
pub fn generate_param_combinations(parametrize_infos: &[ParametrizeInfo]) -> (r: Vec<String>)
    ensures
        texts(r@) == combination_ids(parametrize_views(parametrize_infos@)),
{
    let ghost infos = parametrize_views(parametrize_infos@);
    if parametrize_infos.len() == 0 {
        let r: Vec<String> = Vec::new();
        assert(texts(r@) =~= Seq::<Seq<char>>::empty());
        return r;
    }
    let mut combinations = ids_of(&parametrize_infos[0]);
    let mut i: usize = 1;
    proof {
        assert(infos[0] == parametrize_infos@[0]@);
        assert(infos.take(1).len() == 1 && infos.take(1)[0] == infos[0]);
    }
    // For stacked decorators, create cartesian product
    while i < parametrize_infos.len()
        invariant
            1 <= i <= parametrize_infos@.len(),
            infos == parametrize_views(parametrize_infos@),
            texts(combinations@) == combination_ids(infos.take(i as int)),
        decreases parametrize_infos@.len() - i,
    {
        let ids = ids_of(&parametrize_infos[i]);
        combinations = prefix_each(&combinations, &ids);
        i = i + 1;
        proof {
            assert(infos.take(i as int).drop_last() =~= infos.take(i - 1));
            assert(infos.take(i as int).last() == parametrize_infos@[i - 1]@);
        }
    }
    assert(infos.take(infos.len() as int) =~= infos);
    combinations
}

/// The text of the value is only known at run time.
pub open spec fn is_uncertain(value: ParamView) -> bool {
    value is AttributeAccess || value is Complex
}

/// Some value of the decorators is uncertain.
pub open spec fn any_uncertain(infos: Seq<ParametrizeView>) -> bool {
    exists|i: int, j: int, k: int|
        0 <= i < infos.len() && 0 <= j < infos[i].values.len() && 0 <= k
            < infos[i].values[j].len() && is_uncertain(#[trigger] infos[i].values[j][k])
}

/// Check if any parameter values contain uncertain formatting (attribute accesses or complex
/// expressions)
pub fn has_uncertain_param_values(parametrize_infos: &[ParametrizeInfo]) -> (r: bool)
    ensures
        r == any_uncertain(parametrize_views(parametrize_infos@)),
{
    let ghost infos = parametrize_views(parametrize_infos@);
    let mut i: usize = 0;
    while i < parametrize_infos.len()
        invariant
            i <= parametrize_infos@.len(),
            infos == parametrize_views(parametrize_infos@),
            forall|a: int, b: int, c: int|
                0 <= a < i && 0 <= b < infos[a].values.len() && 0 <= c < infos[a].values[b].len()
                    ==> !is_uncertain(#[trigger] infos[a].values[b][c]),
        decreases parametrize_infos@.len() - i,
    {
        let sets = &parametrize_infos[i].values;
        assert(infos[i as int].values == param_set_views(sets@));
        let mut j: usize = 0;
        while j < sets.len()
            invariant
                i < parametrize_infos@.len(),
                j <= sets@.len(),
                infos == parametrize_views(parametrize_infos@),
                infos[i as int].values == param_set_views(sets@),
                forall|b: int, c: int|
                    0 <= b < j && 0 <= c < infos[i as int].values[b].len() ==> !is_uncertain(
                        #[trigger] infos[i as int].values[b][c],
                    ),
            decreases sets@.len() - j,
        {
            let set = &sets[j];
            assert(infos[i as int].values[j as int] == param_views(set@));
            let mut k: usize = 0;
            while k < set.len()
                invariant
                    i < parametrize_infos@.len(),
                    j < sets@.len(),
                    k <= set@.len(),
                    infos == parametrize_views(parametrize_infos@),
                    infos[i as int].values == param_set_views(sets@),
                    infos[i as int].values[j as int] == param_views(set@),
                    forall|c: int|
                        0 <= c < k ==> !is_uncertain(
                            #[trigger] infos[i as int].values[j as int][c],
                        ),
                decreases set@.len() - k,
            {
                assert(infos[i as int].values[j as int][k as int] == set@[k as int]@);
                match &set[k] {
                    ParamValue::Simple(_) => {},
                    _ => {
                        assert(is_uncertain(infos[i as int].values[j as int][k as int]));
                        return true;
                    },
                }
                k = k + 1;
            }
            j = j + 1;
        }
        i = i + 1;
    }
    false
}

// ---------------------------------------------------------------------------------------------
// Visiting
// ---------------------------------------------------------------------------------------------
/// A test under its final name.
pub open spec fn named_test(
    name: Seq<char>,
    line: nat,
    class: Option<Seq<char>>,
    is_parametrized: bool,
    has_uncertain_params: bool,
) -> TestView {
    TestView {
        name,
        line,
        is_method: class is Some,
        class_name: class,
        is_parametrized,
        has_uncertain_params,
        cases_expansion: ExpansionView::NotDecorated,
    }
}

fn make_named_test(
    name: String,
    line: usize,
    class: Option<&str>,
    is_parametrized: bool,
    has_uncertain_params: bool,
) -> (r: TestInfo)
    ensures
        r@ == named_test(
            name@,
            line as nat,
            str_text(class),
            is_parametrized,
            has_uncertain_params,
        ),
{
    TestInfo {
        name,
        line,
        is_method: class.is_some(),
        class_name: match class {
            Some(c) => Some(copy(c)),
            None => None,
        },
        is_parametrized,
        has_uncertain_params,
        cases_expansion: CasesExpansion::NotDecorated,
    }
}

/// The tests that a function stands for: one for each combination of its parameters and those of
/// its class. A function whose decorators cannot be read stands for itself.
pub open spec fn tests_of(
    func: FunctionView,
    class: Option<Seq<char>>,
    class_infos: Seq<ParametrizeView>,
) -> Seq<TestView> {
    let infos = parametrizations(func.decorators) + class_infos;
    if infos.len() == 0 {
        seq![
            named_test(
                func.name,
                func.offset as nat,
                class,
                any_parametrizing(func.decorators),
                false,
            ),
        ]
    } else {
        let ids = combination_ids(infos);
        Seq::new(
            ids.len(),
            |i: int|
                named_test(
                    func.name + seq!['['] + ids[i] + seq![']'],
                    func.offset as nat,
                    class,
                    true,
                    any_uncertain(infos),
                ),
        )
    }
}

fn extend_infos(list: &mut Vec<ParametrizeInfo>, more: &[ParametrizeInfo])
    ensures
        parametrize_views(final(list)@) == parametrize_views(old(list)@) + parametrize_views(
            more@,
        ),
{
    let ghost start = list@;
    let mut i: usize = 0;
    while i < more.len()
        invariant
            i <= more@.len(),
            list@.len() == start.len() + i,
            forall|j: int| 0 <= j < start.len() ==> list@[j] == start[j],
            forall|j: int|
                #![trigger list@[j]]
                start.len() <= j < start.len() + i ==> list@[j]@ == more@[j - start.len()]@,
        decreases more@.len() - i,
    {
        list.push(more[i].copy());
        i = i + 1;
    }
    assert(parametrize_views(list@) =~= parametrize_views(start) + parametrize_views(more@));
}

fn push_test(tests: &mut Vec<TestInfo>, test: TestInfo)
    ensures
        test_views(final(tests)@) == test_views(old(tests)@).push(test@),
{
    let ghost before = tests@;
    let ghost added = test@;
    tests.push(test);
    assert(test_views(tests@) =~= test_views(before).push(added));
}

/// Adds the tests that a function stands for.
fn visit_function(
    func: &FunctionDef,
    class: Option<&str>,
    class_infos: &[ParametrizeInfo],
    tests: &mut Vec<TestInfo>,
)
    ensures
        test_views(final(tests)@) == test_views(old(tests)@) + tests_of(
            func@,
            str_text(class),
            parametrize_views(class_infos@),
        ),
{
    let ghost start = test_views(tests@);
    let ghost wanted = tests_of(func@, str_text(class), parametrize_views(class_infos@));
    let line: usize = func.offset as usize;
    let mut infos = extract_parametrize_decorators(func.decorators.as_slice());
    // Class decorators apply to all methods
    extend_infos(&mut infos, class_infos);
    if infos.len() == 0 {
        // Mark as parametrized if the decorator exists but couldn't be parsed
        let marked = has_parametrize_decorator(func.decorators.as_slice());
        push_test(
            tests,
            make_named_test(copy(func.name.as_str()), line, class, marked, false),
        );
        assert(test_views(tests@) =~= start + wanted);
        return;
    }
    let uncertain = has_uncertain_param_values(infos.as_slice());
    let combinations = generate_param_combinations(infos.as_slice());
    let ghost ids = texts(combinations@);
    let mut i: usize = 0;
    assert(test_views(tests@) =~= start + wanted.take(0));
    while i < combinations.len()
        invariant
            i <= combinations@.len(),
            ids == texts(combinations@),
            wanted.len() == ids.len(),
            line == func.offset,
            forall|j: int|
                0 <= j < ids.len() ==> #[trigger] wanted[j] == named_test(
                    func.name@ + seq!['['] + ids[j] + seq![']'],
                    func.offset as nat,
                    str_text(class),
                    true,
                    uncertain,
                ),
            test_views(tests@) == start + wanted.take(i as int),
        decreases combinations@.len() - i,
    {
        let mut name = copy(func.name.as_str());
        name.push('[');
        name.append(combinations[i].as_str());
        name.push(']');
        assert(name@ =~= func.name@ + seq!['['] + ids[i as int] + seq![']']);
        push_test(tests, make_named_test(name, line, class, true, uncertain));
        i = i + 1;
        assert(start + wanted.take(i as int) =~= (start + wanted.take(i - 1)).push(
            wanted[i - 1],
        ));
    }
    assert(wanted.take(wanted.len() as int) =~= wanted);
}

/// What is kept of a test class for the classes that inherit from it.
#[derive(Debug)]
pub struct InlineClass {
    pub methods: Vec<TestInfo>,
    pub has_init: bool,
}

/// View of an [`InlineClass`].
pub ghost struct InlineClassView {
    pub methods: Seq<TestView>,
    pub has_init: bool,
}

impl InlineClass {
    pub open spec fn view(&self) -> InlineClassView {
        InlineClassView { methods: test_views(self.methods@), has_init: self.has_init }
    }
}

pub open spec fn inline_views(list: Seq<(String, InlineClass)>) -> Seq<
    (Seq<char>, InlineClassView),
> {
    Seq::new(list.len(), |i: int| (list[i].0@, list[i].1@))
}

/// A class of that name with a constructor stands among the statements.
pub open spec fn named_with_init(stmt: StmtView, name: Seq<char>) -> bool {
    match stmt {
        StmtView::ClassDef(class) => class.name == name && has_init(class),
        _ => false,
    }
}

pub open spec fn init_named(stmts: Seq<StmtView>, name: Seq<char>) -> bool {
    exists|i: int| 0 <= i < stmts.len() && named_with_init(#[trigger] stmts[i], name)
}

/// The tests of the methods that a class defines.
pub open spec fn method_tests(
    config: ConfigView,
    body: Seq<StmtView>,
    class: Seq<char>,
    class_infos: Seq<ParametrizeView>,
) -> Seq<TestView>
    decreases body.len(),
{
    if body.len() == 0 {
        seq![]
    } else {
        let before = method_tests(config, body.drop_last(), class, class_infos);
        match body.last() {
            StmtView::FunctionDef(func) if config.is_test_function(func.name) => before
                + tests_of(func, Some(class), class_infos),
            _ => before,
        }
    }
}

/// `done` with the test classes among the statements from `i` on.
pub open spec fn inline_cache(
    config: ConfigView,
    stmts: Seq<StmtView>,
    i: int,
    done: Seq<(Seq<char>, InlineClassView)>,
) -> Seq<(Seq<char>, InlineClassView)>
    decreases stmts.len() - i,
{
    if i < 0 || i >= stmts.len() {
        done
    } else {
        let next = match stmts[i] {
            StmtView::ClassDef(class) if config.is_test_class(class.name) => with_entry(
                done,
                class.name,
                InlineClassView {
                    methods: method_tests(
                        config,
                        class.body,
                        class.name,
                        parametrizations(class.decorators),
                    ),
                    has_init: init_named(stmts, class.name),
                },
            ),
            _ => done,
        };
        inline_cache(config, stmts, i + 1, next)
    }
}

/// The kept class that a base class expression names.
pub open spec fn inline_base(cache: Seq<(Seq<char>, InlineClassView)>, e: ExprView) -> Option<
    InlineClassView,
> {
    match e {
        ExprView::Name(id) => entry(cache, id),
        _ => None,
    }
}

/// The class, or a kept base class of it, has a constructor.
pub open spec fn inline_skips(
    cache: Seq<(Seq<char>, InlineClassView)>,
    class: ClassView,
) -> bool {
    has_init(class) || exists|i: int|
        0 <= i < base_exprs(class).len() && (inline_base(
            cache,
            #[trigger] base_exprs(class)[i],
        ) matches Some(parent) && parent.has_init)
}

/// The tests as those of another class.
pub open spec fn moved_to(tests: Seq<TestView>, class: Seq<char>) -> Seq<TestView> {
    Seq::new(
        tests.len(),
        |i: int|
            named_test(
                tests[i].name,
                tests[i].line,
                Some(class),
                tests[i].is_parametrized,
                tests[i].has_uncertain_params,
            ),
    )
}

/// The tests that a class inherits from its bases.
pub open spec fn inline_inherited(
    cache: Seq<(Seq<char>, InlineClassView)>,
    bases: Seq<ExprView>,
    class: Seq<char>,
) -> Seq<TestView>
    decreases bases.len(),
{
    if bases.len() == 0 {
        seq![]
    } else {
        let before = inline_inherited(cache, bases.drop_last(), class);
        match inline_base(cache, bases.last()) {
            Some(parent) => before + moved_to(parent.methods, class),
            None => before,
        }
    }
}

/// `done` followed by the tests of the statements from `i` on, inside the class `class` with these
/// parameters. A class contributes what it inherits and then what its body holds, nested classes
/// among it.
pub open spec fn inline_tests(
    config: ConfigView,
    cache: Seq<(Seq<char>, InlineClassView)>,
    stmts: Seq<StmtView>,
    i: int,
    class: Option<Seq<char>>,
    class_infos: Seq<ParametrizeView>,
    done: Seq<TestView>,
) -> Seq<TestView>
    decreases stmts, stmts.len() - i,
{
    if i < 0 || i >= stmts.len() {
        done
    } else {
        let next = match stmts[i] {
            StmtView::FunctionDef(func) if config.is_test_function(func.name) => done + tests_of(
                func,
                class,
                class_infos,
            ),
            StmtView::ClassDef(inner) => if config.is_test_class(inner.name) && !inline_skips(
                cache,
                inner,
            ) {
                inline_tests(
                    config,
                    cache,
                    inner.body,
                    0,
                    Some(inner.name),
                    parametrizations(inner.decorators),
                    done + inline_inherited(cache, base_exprs(inner), inner.name),
                )
            } else {
                done
            },
            _ => done,
        };
        inline_tests(config, cache, stmts, i + 1, class, class_infos, next)
    }
}

/// The tests of a module.
pub open spec fn module_inline_tests(config: ConfigView, stmts: Seq<StmtView>) -> Seq<TestView> {
    inline_tests(
        config,
        inline_cache(config, stmts, 0, seq![]),
        stmts,
        0,
        None,
        seq![],
        seq![],
    )
}

fn names_class_with_init(module: &PyModule, name: &str) -> (r: bool)
    ensures
        r == init_named(module@, name@),
{
    let ghost stmts = module@;
    let mut i: usize = 0;
    while i < module.body.len()
        invariant
            i <= module.body@.len(),
            stmts == stmt_views(module.body@),
            stmts == module@,
            forall|j: int| 0 <= j < i ==> !named_with_init(#[trigger] stmts[j], name@),
        decreases module.body@.len() - i,
    {
        assert(stmts[i as int] == module.body@[i as int]@);
        if let PyStmt::ClassDef(class) = &module.body[i] {
            if same(class.name.as_str(), name) && class_has_init(class) {
                assert(named_with_init(stmts[i as int], name@));
                return true;
            }
        }
        i = i + 1;
    }
    false
}

fn collect_methods(config: &TestDiscoveryConfig, class: &ClassDef) -> (r: Vec<TestInfo>)
    ensures
        test_views(r@) == method_tests(
            config@,
            class@.body,
            class.name@,
            parametrizations(class@.decorators),
        ),
{
    let ghost body = class@.body;
    let infos = extract_parametrize_decorators(class.decorators.as_slice());
    let ghost views = parametrize_views(infos@);
    let mut methods: Vec<TestInfo> = Vec::new();
    let mut i: usize = 0;
    proof {
        assert(body.take(0) =~= Seq::<StmtView>::empty());
        assert(test_views(methods@) =~= Seq::<TestView>::empty());
    }
    while i < class.body.len()
        invariant
            i <= class.body@.len(),
            body == stmt_views(class.body@),
            views == parametrize_views(infos@),
            test_views(methods@) == method_tests(
                config@,
                body.take(i as int),
                class.name@,
                views,
            ),
        decreases class.body@.len() - i,
    {
        proof {
            assert(body.take(i + 1).drop_last() =~= body.take(i as int));
            assert(body.take(i + 1).last() == class.body@[i as int]@);
        }
        if let PyStmt::FunctionDef(func) = &class.body[i] {
            if config.is_test_function(func.name.as_str()) {
                visit_function(func, Some(class.name.as_str()), infos.as_slice(), &mut methods);
            }
        }
        i = i + 1;
    }
    assert(body.take(body.len() as int) =~= body);
    methods
}

fn collect_class_methods(config: &TestDiscoveryConfig, module: &PyModule) -> (r: Vec<
    (String, InlineClass),
>)
    ensures
        inline_views(r@) == inline_cache(config@, module@, 0, seq![]),
{
    let ghost stmts = module@;
    let mut cache: Vec<(String, InlineClass)> = Vec::new();
    assert(inline_views(cache@) =~= Seq::<(Seq<char>, InlineClassView)>::empty());
    let mut i: usize = 0;
    while i < module.body.len()
        invariant
            i <= module.body@.len(),
            stmts == stmt_views(module.body@),
            stmts == module@,
            inline_cache(config@, stmts, 0, seq![]) == inline_cache(
                config@,
                stmts,
                i as int,
                inline_views(cache@),
            ),
        decreases module.body@.len() - i,
    {
        assert(stmts[i as int] == module.body@[i as int]@);
        if let PyStmt::ClassDef(class) = &module.body[i] {
            if config.is_test_class(class.name.as_str()) {
                // Methods are kept even for classes with __init__ (for inheritance checking)
                let info = InlineClass {
                    methods: collect_methods(config, class),
                    has_init: names_class_with_init(module, class.name.as_str()),
                };
                let ghost before = cache@;
                let ghost added = info@;
                assert(names(before) =~= keys(inline_views(before)));
                insert(&mut cache, copy(class.name.as_str()), info);
                assert(inline_views(cache@) =~= with_entry(
                    inline_views(before),
                    class.name@,
                    added,
                ));
            }
        }
        i = i + 1;
    }
    cache
}

fn find_inline_base<'a>(cache: &'a Vec<(String, InlineClass)>, base: &PyExpr) -> (r: Option<
    &'a InlineClass,
>)
    ensures
        match r {
            Some(info) => inline_base(inline_views(cache@), base@) == Some(info@),
            None => inline_base(inline_views(cache@), base@) is None,
        },
{
    match base {
        PyExpr::Name(id) => {
            assert(names(cache@) =~= keys(inline_views(cache@)));
            let at = place_of(cache.as_slice(), id.as_str());
            if at < cache.len() {
                Some(&cache[at].1)
            } else {
                None
            }
        },
        _ => None,
    }
}

fn skips_class(cache: &Vec<(String, InlineClass)>, class: &ClassDef) -> (r: bool)
    ensures
        r == inline_skips(inline_views(cache@), class@),
{
    if class_has_init(class) {
        return true;
    }
    if let Some(bases) = &class.bases {
        let ghost views = expr_views(bases@);
        let mut i: usize = 0;
        while i < bases.len()
            invariant
                i <= bases@.len(),
                views == expr_views(bases@),
                views == base_exprs(class@),
                !has_init(class@),
                forall|j: int|
                    0 <= j < i ==> !(inline_base(
                        inline_views(cache@),
                        #[trigger] views[j],
                    ) matches Some(parent) && parent.has_init),
            decreases bases@.len() - i,
        {
            assert(views[i as int] == bases@[i as int]@);
            if let Some(parent) = find_inline_base(cache, &bases[i]) {
                if parent.has_init {
                    return true;
                }
            }
            i = i + 1;
        }
    }
    false
}

/// Adds the methods of a base class under the name of the inheriting class.
fn move_tests(methods: &Vec<TestInfo>, class_name: &str, tests: &mut Vec<TestInfo>)
    ensures
        test_views(final(tests)@) == test_views(old(tests)@) + moved_to(
            test_views(methods@),
            class_name@,
        ),
{
    let ghost start = test_views(tests@);
    let ghost wanted = moved_to(test_views(methods@), class_name@);
    let mut i: usize = 0;
    assert(test_views(tests@) =~= start + wanted.take(0));
    while i < methods.len()
        invariant
            i <= methods@.len(),
            wanted == moved_to(test_views(methods@), class_name@),
            test_views(tests@) == start + wanted.take(i as int),
        decreases methods@.len() - i,
    {
        let method = &methods[i];
        assert(test_views(methods@)[i as int] == method@);
        push_test(
            tests,
            make_named_test(
                copy(method.name.as_str()),
                method.line,
                Some(class_name),
                method.is_parametrized,
                method.has_uncertain_params,
            ),
        );
        i = i + 1;
        assert(start + wanted.take(i as int) =~= (start + wanted.take(i - 1)).push(
            wanted[i - 1],
        ));
    }
    assert(wanted.take(wanted.len() as int) =~= wanted);
}

/// Adds the tests that a class inherits.
fn visit_bases(
    cache: &Vec<(String, InlineClass)>,
    class: &ClassDef,
    tests: &mut Vec<TestInfo>,
)
    ensures
        test_views(final(tests)@) == test_views(old(tests)@) + inline_inherited(
            inline_views(cache@),
            base_exprs(class@),
            class.name@,
        ),
{
    let ghost start = test_views(tests@);
    let ghost known = inline_views(cache@);
    let ghost views = base_exprs(class@);
    assert(views.take(0) =~= Seq::<ExprView>::empty());
    assert(start + inline_inherited(known, views.take(0), class.name@) =~= start);
    if let Some(bases) = &class.bases {
        let mut i: usize = 0;
        while i < bases.len()
            invariant
                i <= bases@.len(),
                views == expr_views(bases@),
                known == inline_views(cache@),
                test_views(tests@) == start + inline_inherited(
                    known,
                    views.take(i as int),
                    class.name@,
                ),
            decreases bases@.len() - i,
        {
            proof {
                assert(views.take(i + 1).drop_last() =~= views.take(i as int));
                assert(views.take(i + 1).last() == bases@[i as int]@);
            }
            if let Some(parent) = find_inline_base(cache, &bases[i]) {
                move_tests(&parent.methods, class.name.as_str(), tests);
                assert(test_views(tests@) =~= start + (inline_inherited(
                    known,
                    views.take(i as int),
                    class.name@,
                ) + moved_to(parent@.methods, class.name@)));
            }
            i = i + 1;
        }
    }
    assert(views.take(views.len() as int) =~= views);
}

fn visit_stmts(
    config: &TestDiscoveryConfig,
    cache: &Vec<(String, InlineClass)>,
    stmts: &[PyStmt],
    class: Option<&str>,
    class_infos: &[ParametrizeInfo],
    tests: &mut Vec<TestInfo>,
)
    ensures
        test_views(final(tests)@) == inline_tests(
            config@,
            inline_views(cache@),
            stmt_views(stmts@),
            0,
            str_text(class),
            parametrize_views(class_infos@),
            test_views(old(tests)@),
        ),
    decreases stmt_views(stmts@),
{
    let ghost views = stmt_views(stmts@);
    let ghost known = inline_views(cache@);
    let ghost whole = inline_tests(
        config@,
        known,
        views,
        0,
        str_text(class),
        parametrize_views(class_infos@),
        test_views(tests@),
    );
    let mut i: usize = 0;
    while i < stmts.len()
        invariant
            i <= stmts@.len(),
            views == stmt_views(stmts@),
            known == inline_views(cache@),
            whole == inline_tests(
                config@,
                known,
                views,
                i as int,
                str_text(class),
                parametrize_views(class_infos@),
                test_views(tests@),
            ),
        decreases stmts@.len() - i,
    {
        assert(views[i as int] == stmts@[i as int]@);
        match &stmts[i] {
            PyStmt::FunctionDef(func) => {
                if config.is_test_function(func.name.as_str()) {
                    visit_function(func, class, class_infos, tests);
                }
            },
            PyStmt::ClassDef(inner) => {
                if config.is_test_class(inner.name.as_str()) && !skips_class(cache, inner) {
                    proof {
                        assert(decreases_to!(views => views[i as int]));
                        assert(decreases_to!(views[i as int] => views[i as int]->ClassDef_0));
                        assert(decreases_to!(inner@ => inner@.body));
                    }
                    let infos = extract_parametrize_decorators(inner.decorators.as_slice());
                    // First, collect inherited methods from base classes
                    visit_bases(cache, inner, tests);
                    // Then visit methods defined directly in this class
                    visit_stmts(
                        config,
                        cache,
                        inner.body.as_slice(),
                        Some(inner.name.as_str()),
                        infos.as_slice(),
                        tests,
                    );
                }
            },
            _ => {},
        }
        i = i + 1;
    }
}

/// The tests of a module under their final names.
pub fn inline_tests_of(config: &TestDiscoveryConfig, module: &PyModule) -> (r: Vec<TestInfo>)
    ensures
        test_views(r@) == module_inline_tests(config@, module@),
{
    // First pass: collect all test classes and their methods
    let cache = collect_class_methods(config, module);
    // Second pass: visit statements and handle inheritance
    let mut tests: Vec<TestInfo> = Vec::new();
    let none: Vec<ParametrizeInfo> = Vec::new();
    assert(test_views(tests@) =~= Seq::<TestView>::empty());
    assert(parametrize_views(none@) =~= Seq::<ParametrizeView>::empty());
    visit_stmts(config, &cache, module.body.as_slice(), None, none.as_slice(), &mut tests);
    tests
}

} // verus!
