//! Reading of `@rtest.mark.cases` and `@pytest.mark.parametrize` decorators.
//!
//! A decorator is read into a [`CasesSpec`]: its argument names, its values and their IDs. Names
//! and attributes among the values go through a [`ConstantResolver`].

use crate::python_discovery::cases::{
    expand_cases, expanded_ids, literal_to_id_string, spec_views, value_id, value_ids,
    value_views, CannotExpandReason, CasesExpansion, CasesSpec, ExpansionView, InfoView,
    LiteralValue, MethodCasesInfo, ReasonView, SpecView, ValueView,
};
use crate::python_discovery::constant_resolver::{
    ConstantResolver, ResolvedConstant, ResolvedView, ResolverView,
};
use crate::python_discovery::constants::{
    large_integer, large_integer_text, negate, negated, with_minus,
};
use crate::python_discovery::numbers::{float_repr, float_text, integer_repr, integer_text};
use crate::python_discovery::syntax::{
    expr_views, keyword_views, ExprView, KeywordView, NumberView, PyExpr, PyKeyword, PyNumber,
};
use crate::strings::{
    copy, join, joined, nat_text, pieces, same, split, str_text, texts, trim, trimmed,
    usize_string,
};
use vstd::prelude::*;

verus! {

/// How parametrize case IDs are generated from resolved constants.
#[derive(Debug, Clone, Copy, PartialEq, Eq, Structural)]
pub enum ParamIdStyle {
    /// `@rtest.mark.cases`: use the source path (`Color.RED`, `TEST_DATA[1]`).
    SourcePath,
    /// `@pytest.mark.parametrize`: match pytest IDs (runtime values; `str(enum)`).
    RuntimeValue,
}

/// Why the reading of a decorator stopped.
pub enum Obstacle {
    /// The decorator cannot be expanded.
    Cannot(CannotExpandReason),
    /// A module has to be loaded first.
    Needs(Vec<String>),
}

/// View of an [`Obstacle`].
pub ghost enum ObstacleView {
    Cannot(ReasonView),
    Needs(Seq<Seq<char>>),
}

impl Obstacle {
    pub open spec fn view(&self) -> ObstacleView {
        match self {
            Obstacle::Cannot(reason) => ObstacleView::Cannot(reason@),
            Obstacle::Needs(module) => ObstacleView::Needs(texts(module@)),
        }
    }
}

/// What the values of a decorator are read against.
#[derive(Clone, Copy)]
pub struct Context<'a> {
    pub resolver: Option<&'a ConstantResolver>,
    pub enclosing_class: Option<&'a str>,
    pub style: ParamIdStyle,
}

/// View of a [`Context`].
pub ghost struct ContextView {
    pub resolver: Option<ResolverView>,
    pub enclosing_class: Option<Seq<char>>,
    pub style: ParamIdStyle,
}

pub open spec fn resolver_view(resolver: Option<&ConstantResolver>) -> Option<ResolverView> {
    match resolver {
        Some(r) => Some(r@),
        None => None,
    }
}

impl<'a> Context<'a> {
    pub open spec fn view(&self) -> ContextView {
        ContextView {
            resolver: resolver_view(self.resolver),
            enclosing_class: str_text(self.enclosing_class),
            style: self.style,
        }
    }
}

fn unsupported(what: &str) -> (r: Obstacle)
    ensures
        r@ == ObstacleView::Cannot(ReasonView::UnsupportedExpression(what@)),
{
    Obstacle::Cannot(CannotExpandReason::UnsupportedExpression(copy(what)))
}

pub open spec fn unsupported_view(what: Seq<char>) -> ObstacleView {
    ObstacleView::Cannot(ReasonView::UnsupportedExpression(what))
}

// ---------------------------------------------------------------------------------------------
// Names
// ---------------------------------------------------------------------------------------------
/// The style of IDs of a decorator: `rtest.mark.cases`, `<anything>.mark.parametrize` and
/// `mark.parametrize` have one.
///
/// Bare `@parametrize(...)` is not recognized: custom wrappers would produce IDs that do not match
/// pytest.
pub open spec fn style_of(func: ExprView) -> Option<ParamIdStyle> {
    match func {
        ExprView::Attribute { value, attr } => if attr == "cases"@ {
            match *value {
                ExprView::Attribute { value: module, attr: mark } => if mark == "mark"@ && *module
                    == ExprView::Name("rtest"@) {
                    Some(ParamIdStyle::SourcePath)
                } else {
                    None
                },
                _ => None,
            }
        } else if attr == "parametrize"@ {
            match *value {
                ExprView::Name(id) => if id == "mark"@ {
                    Some(ParamIdStyle::RuntimeValue)
                } else {
                    None
                },
                ExprView::Attribute { attr: mark, .. } => if mark == "mark"@ {
                    Some(ParamIdStyle::RuntimeValue)
                } else {
                    None
                },
                _ => None,
            }
        } else {
            None
        },
        _ => None,
    }
}

/// Identify `@rtest.mark.cases`, `@pytest.mark.parametrize`, and `@mark.parametrize`.
pub fn decorator_id_style(func: &PyExpr) -> (r: Option<ParamIdStyle>)
    ensures
        r == style_of(func@),
{
    let (value, attr) = match func {
        PyExpr::Attribute { value, attr } => (value, attr),
        _ => {
            return None;
        },
    };
    assert(func@->Attribute_value == Box::new(value@));
    if same(attr.as_str(), "cases") {
        match &**value {
            PyExpr::Attribute { value: module, attr: mark } => {
                assert(value@ == (ExprView::Attribute {
                    value: Box::new(module@),
                    attr: mark@,
                }));
                if !same(mark.as_str(), "mark") {
                    return None;
                }
                match &**module {
                    PyExpr::Name(id) => {
                        assert(module@ == ExprView::Name(id@));
                        if same(id.as_str(), "rtest") {
                            Some(ParamIdStyle::SourcePath)
                        } else {
                            None
                        }
                    },
                    _ => {
                        assert(!(module@ is Name));
                        None
                    },
                }
            },
            _ => {
                assert(!(value@ is Attribute));
                None
            },
        }
    } else if same(attr.as_str(), "parametrize") {
        match &**value {
            PyExpr::Name(id) => {
                assert(value@ == ExprView::Name(id@));
                if same(id.as_str(), "mark") {
                    Some(ParamIdStyle::RuntimeValue)
                } else {
                    None
                }
            },
            PyExpr::Attribute { value: module, attr: mark } => {
                assert(value@ == (ExprView::Attribute {
                    value: Box::new(module@),
                    attr: mark@,
                }));
                if same(mark.as_str(), "mark") {
                    Some(ParamIdStyle::RuntimeValue)
                } else {
                    None
                }
            },
            _ => {
                assert(!(value@ is Attribute) && !(value@ is Name));
                None
            },
        }
    } else {
        None
    }
}

/// The name of a called function, for error messages.
pub open spec fn call_name(func: ExprView) -> Seq<char> {
    match func {
        ExprView::Name(id) => id,
        ExprView::Attribute { attr, .. } => attr,
        _ => "unknown"@,
    }
}

/// Get the name of a called function for error messages.
pub fn get_call_name(func: &PyExpr) -> (r: String)
    ensures
        r@ == call_name(func@),
{
    match func {
        PyExpr::Name(id) => copy(id.as_str()),
        PyExpr::Attribute { attr, .. } => copy(attr.as_str()),
        _ => copy("unknown"),
    }
}

/// The called function is `param` or `<anything>.param`.
pub open spec fn calls_param(func: ExprView) -> bool {
    match func {
        ExprView::Name(id) => id == "param"@,
        ExprView::Attribute { attr, .. } => attr == "param"@,
        _ => false,
    }
}

pub fn is_pytest_param(func: &PyExpr) -> (r: bool)
    ensures
        r == calls_param(func@),
{
    match func {
        PyExpr::Name(id) => same(id.as_str(), "param"),
        PyExpr::Attribute { attr, .. } => same(attr.as_str(), "param"),
        _ => false,
    }
}

/// The non-empty names among the trimmed pieces.
pub open spec fn names_among(list: Seq<Seq<char>>) -> Seq<Seq<char>>
    decreases list.len(),
{
    if list.len() == 0 {
        seq![]
    } else {
        let before = names_among(list.drop_last());
        let name = trimmed(list.last());
        if name.len() == 0 {
            before
        } else {
            before.push(name)
        }
    }
}

/// `done` followed by the texts of the string literals from `i` on, if all of them are.
pub open spec fn strings_from(elts: Seq<ExprView>, i: int, done: Seq<Seq<char>>) -> Option<
    Seq<Seq<char>>,
>
    decreases elts.len() - i,
{
    if i < 0 || i >= elts.len() {
        Some(done)
    } else {
        match elts[i] {
            ExprView::StringLiteral(s) => strings_from(elts, i + 1, done.push(s)),
            _ => None,
        }
    }
}

/// The names of a list of arguments, of which there must be one at least.
pub open spec fn some_names(names: Seq<Seq<char>>) -> Result<Seq<Seq<char>>, ObstacleView> {
    if names.len() == 0 {
        Err(unsupported_view("empty argnames"@))
    } else {
        Ok(names)
    }
}

/// The argument names that the first decorator argument gives.
pub open spec fn argnames_of(e: ExprView) -> Result<Seq<Seq<char>>, ObstacleView> {
    match e {
        ExprView::StringLiteral(s) => some_names(names_among(pieces(s, ','))),
        ExprView::List(elts) => match strings_from(elts, 0, seq![]) {
            Some(names) => some_names(names),
            None => Err(unsupported_view("argnames list must contain only strings"@)),
        },
        ExprView::Tuple(elts) => match strings_from(elts, 0, seq![]) {
            Some(names) => some_names(names),
            None => Err(unsupported_view("argnames list must contain only strings"@)),
        },
        ExprView::Name(id) => Err(ObstacleView::Cannot(ReasonView::VariableReference(id))),
        _ => Err(unsupported_view("argnames must be a string or list/tuple of strings"@)),
    }
}

/// The texts of a list of string literals.
pub fn string_elements(elts: &[PyExpr]) -> (r: Option<Vec<String>>)
    ensures
        match r {
            Some(list) => strings_from(expr_views(elts@), 0, seq![]) == Some(texts(list@)),
            None => strings_from(expr_views(elts@), 0, seq![]) is None,
        },
{
    let ghost views = expr_views(elts@);
    let mut list: Vec<String> = Vec::new();
    assert(texts(list@) =~= Seq::<Seq<char>>::empty());
    let mut i: usize = 0;
    while i < elts.len()
        invariant
            i <= elts@.len(),
            views == expr_views(elts@),
            strings_from(views, 0, seq![]) == strings_from(views, i as int, texts(list@)),
        decreases elts@.len() - i,
    {
        assert(views[i as int] == elts@[i as int]@);
        match &elts[i] {
            PyExpr::StringLiteral(s) => {
                let ghost before = list@;
                list.push(copy(s.as_str()));
                assert(texts(list@) =~= texts(before).push(s@));
            },
            _ => {
                return None;
            },
        }
        i = i + 1;
    }
    Some(list)
}

/// Extract argument names from the first decorator argument.
pub fn extract_argnames(expr: &PyExpr) -> (r: Result<Vec<String>, Obstacle>)
    ensures
        match r {
            Ok(names) => argnames_of(expr@) == Ok::<Seq<Seq<char>>, ObstacleView>(texts(names@)),
            Err(why) => argnames_of(expr@) == Err::<Seq<Seq<char>>, ObstacleView>(why@),
        },
{
    match expr {
        PyExpr::StringLiteral(s) => {
            let parts = split(s.as_str(), ',');
            let ghost all = texts(parts@);
            let mut names: Vec<String> = Vec::new();
            let mut i: usize = 0;
            proof {
                assert(all.take(0) =~= Seq::<Seq<char>>::empty());
                assert(texts(names@) =~= Seq::<Seq<char>>::empty());
            }
            while i < parts.len()
                invariant
                    i <= parts@.len(),
                    all == texts(parts@),
                    texts(names@) == names_among(all.take(i as int)),
                decreases parts@.len() - i,
            {
                let name = trim(parts[i].as_str());
                proof {
                    assert(all.take(i + 1).drop_last() =~= all.take(i as int));
                    assert(all.take(i + 1).last() == parts@[i as int]@);
                }
                if !name.as_str().is_empty() {
                    let ghost before = names@;
                    let ghost n = name@;
                    names.push(name);
                    assert(texts(names@) =~= texts(before).push(n));
                }
                i = i + 1;
            }
            assert(all.take(all.len() as int) =~= all);
            if names.len() == 0 {
                Err(unsupported("empty argnames"))
            } else {
                Ok(names)
            }
        },
        PyExpr::List(elts) => match string_elements(elts.as_slice()) {
            Some(names) => if names.len() == 0 {
                Err(unsupported("empty argnames"))
            } else {
                Ok(names)
            },
            None => Err(unsupported("argnames list must contain only strings")),
        },
        PyExpr::Tuple(elts) => match string_elements(elts.as_slice()) {
            Some(names) => if names.len() == 0 {
                Err(unsupported("empty argnames"))
            } else {
                Ok(names)
            },
            None => Err(unsupported("argnames list must contain only strings")),
        },
        PyExpr::Name(id) => Err(
            Obstacle::Cannot(CannotExpandReason::VariableReference(copy(id.as_str()))),
        ),
        _ => Err(unsupported("argnames must be a string or list/tuple of strings")),
    }
}

// ---------------------------------------------------------------------------------------------
// IDs
// ---------------------------------------------------------------------------------------------
/// The ID of a value by its position: the argument's name and the number of the case.
pub open spec fn positional(argnames: Seq<Seq<char>>, position: int, case: nat) -> Seq<char> {
    (if 0 <= position < argnames.len() {
        argnames[position]
    } else {
        "arg"@
    }) + nat_text(case)
}

fn positional_id(argnames: &[String], position: usize, case: usize) -> (r: String)
    ensures
        r@ == positional(texts(argnames@), position as int, case as nat),
{
    let mut r = if position < argnames.len() {
        copy(argnames[position].as_str())
    } else {
        copy("arg")
    };
    r.append(usize_string(case).as_str());
    r
}

/// `id` with its empty segments replaced by positional IDs.
pub open spec fn filled(id: Seq<char>, argnames: Seq<Seq<char>>, case: nat) -> Seq<char> {
    let parts = pieces(id, '-');
    joined(
        Seq::new(
            parts.len(),
            |i: int|
                if parts[i].len() == 0 {
                    positional(argnames, i, case)
                } else {
                    parts[i]
                },
        ),
        "-"@,
    )
}

/// Replace empty segments in a multi-param ID with positional IDs. The segments hold no dashes.
///
/// For ID "-2-3" with argnames ["data", "num", "count"] at tuple index 0:
/// - Position 0: "" (empty) -> "data0"
/// - Position 1: "2" (non-empty, keep)
/// - Position 2: "3" (non-empty, keep)
///
/// Result: "data0-2-3"
pub fn fill_opaque_placeholders(id: &str, argnames: &[String], tuple_idx: usize) -> (r: String)
    ensures
        r@ == filled(id@, texts(argnames@), tuple_idx as nat),
{
    let parts = split(id, '-');
    let ghost all = pieces(id@, '-');
    let ghost names = texts(argnames@);
    let ghost wanted = Seq::new(
        all.len(),
        |i: int|
            if all[i].len() == 0 {
                positional(names, i, tuple_idx as nat)
            } else {
                all[i]
            },
    );
    let mut out: Vec<String> = Vec::new();
    let mut i: usize = 0;
    while i < parts.len()
        invariant
            i <= parts@.len(),
            all == texts(parts@),
            names == texts(argnames@),
            out@.len() == i,
            wanted.len() == all.len(),
            forall|j: int|
                #![trigger wanted[j]]
                0 <= j < all.len() ==> wanted[j] == (if all[j].len() == 0 {
                    positional(names, j, tuple_idx as nat)
                } else {
                    all[j]
                }),
            forall|j: int| 0 <= j < i ==> (#[trigger] out@[j])@ == wanted[j],
        decreases parts@.len() - i,
    {
        assert(all[i as int] == parts@[i as int]@);
        assert(wanted[i as int].len() >= 0);
        if parts[i].as_str().is_empty() {
            out.push(positional_id(argnames, i, tuple_idx));
        } else {
            out.push(copy(parts[i].as_str()));
        }
        i = i + 1;
    }
    assert(texts(out@) =~= wanted);
    join(out.as_slice(), "-")
}

/// A part of a case's ID, and whether the value that it stands for is opaque: it has no text of its
/// own in an ID.
#[derive(Debug)]
pub struct IdPart {
    pub text: String,
    pub is_opaque: bool,
}

/// View of an [`IdPart`].
pub ghost struct PartView {
    pub text: Seq<char>,
    pub is_opaque: bool,
}

impl IdPart {
    pub open spec fn view(&self) -> PartView {
        PartView { text: self.text@, is_opaque: self.is_opaque }
    }
}

pub open spec fn part_views(list: Seq<IdPart>) -> Seq<PartView> {
    Seq::new(list.len(), |i: int| list[i].view())
}

/// The texts of the parts.
pub open spec fn part_texts(parts: Seq<PartView>) -> Seq<Seq<char>> {
    Seq::new(parts.len(), |i: int| parts[i].text)
}

/// The ID of a case from its parts: a part is positional just where its value is opaque.
pub open spec fn final_id(
    parts: Seq<PartView>,
    argnames: Seq<Seq<char>>,
    case: nat,
) -> Seq<char> {
    joined(
        Seq::new(
            parts.len(),
            |i: int|
                if parts[i].is_opaque {
                    positional(argnames, i, case)
                } else {
                    parts[i].text
                },
        ),
        "-"@,
    )
}

/// The ID of a case from its parts: opaque values get positional IDs.
pub fn finalize_pytest_id(parts: &[IdPart], argnames: &[String], idx: usize) -> (r: String)
    ensures
        r@ == final_id(part_views(parts@), texts(argnames@), idx as nat),
{
    let ghost views = part_views(parts@);
    let ghost names = texts(argnames@);
    let mut ids: Vec<String> = Vec::new();
    let mut i: usize = 0;
    while i < parts.len()
        invariant
            i <= parts@.len(),
            views == part_views(parts@),
            names == texts(argnames@),
            ids@.len() == i,
            forall|j: int|
                0 <= j < i ==> (#[trigger] ids@[j])@ == if views[j].is_opaque {
                    positional(names, j, idx as nat)
                } else {
                    views[j].text
                },
        decreases parts@.len() - i,
    {
        assert(views[i as int] == parts@[i as int]@);
        if parts[i].is_opaque {
            ids.push(positional_id(argnames, i, idx));
        } else {
            ids.push(copy(parts[i].text.as_str()));
        }
        i = i + 1;
    }
    assert(texts(ids@) =~= Seq::new(
        views.len(),
        |i: int|
            if views[i].is_opaque {
                positional(names, i, idx as nat)
            } else {
                views[i].text
            },
    ));
    join(ids.as_slice(), "-")
}

/// The texts of the parts with dashes between them.
fn join_parts(parts: &[IdPart]) -> (r: String)
    ensures
        r@ == joined(part_texts(part_views(parts@)), "-"@),
{
    let ghost views = part_views(parts@);
    let mut ids: Vec<String> = Vec::new();
    let mut i: usize = 0;
    while i < parts.len()
        invariant
            i <= parts@.len(),
            views == part_views(parts@),
            ids@.len() == i,
            forall|j: int| 0 <= j < i ==> (#[trigger] ids@[j])@ == views[j].text,
        decreases parts@.len() - i,
    {
        ids.push(copy(parts[i].text.as_str()));
        i = i + 1;
    }
    assert(texts(ids@) =~= part_texts(views));
    join(ids.as_slice(), "-")
}

/// The ID of one resolved value: positional for sequences and opaque values.
pub open spec fn part_id(
    value: ValueView,
    argnames: Seq<Seq<char>>,
    position: int,
    case: nat,
) -> Seq<char> {
    if value is Sequence || value is Opaque {
        positional(argnames, position, case)
    } else {
        value_id(value)
    }
}

fn resolved_part_id(
    value: &LiteralValue,
    argnames: &[String],
    position: usize,
    idx: usize,
) -> (r: String)
    ensures
        r@ == part_id(value@, texts(argnames@), position as int, idx as nat),
{
    match value {
        LiteralValue::Sequence(_) => positional_id(argnames, position, idx),
        LiteralValue::Opaque => positional_id(argnames, position, idx),
        _ => literal_to_id_string(value),
    }
}

/// The ID of a case whose value comes from a resolved sequence.
pub open spec fn resolved_case_id(
    value: ValueView,
    argnames: Seq<Seq<char>>,
    case: nat,
) -> Seq<char> {
    if argnames.len() <= 1 {
        part_id(value, argnames, 0, case)
    } else {
        match value {
            ValueView::Sequence(parts) => joined(
                Seq::new(parts.len(), |i: int| part_id(parts[i], argnames, i, case)),
                "-"@,
            ),
            ValueView::Opaque => positional(argnames, 0, case),
            _ => value_id(value),
        }
    }
}

pub fn id_for_resolved_case_value(
    value: &LiteralValue,
    argnames: &[String],
    idx: usize,
) -> (r: String)
    ensures
        r@ == resolved_case_id(value@, texts(argnames@), idx as nat),
{
    if argnames.len() <= 1 {
        return resolved_part_id(value, argnames, 0, idx);
    }
    match value {
        LiteralValue::Sequence(parts) => {
            let ghost views = value_views(parts@);
            let ghost names = texts(argnames@);
            let mut ids: Vec<String> = Vec::new();
            let mut i: usize = 0;
            while i < parts.len()
                invariant
                    i <= parts@.len(),
                    views == value_views(parts@),
                    names == texts(argnames@),
                    ids@.len() == i,
                    forall|j: int|
                        0 <= j < i ==> (#[trigger] ids@[j])@ == part_id(
                            views[j],
                            names,
                            j,
                            idx as nat,
                        ),
                decreases parts@.len() - i,
            {
                assert(views[i as int] == parts@[i as int]@);
                ids.push(resolved_part_id(&parts[i], argnames, i, idx));
                i = i + 1;
            }
            assert(texts(ids@) =~= Seq::new(
                views.len(),
                |i: int| part_id(views[i], names, i, idx as nat),
            ));
            join(ids.as_slice(), "-")
        },
        LiteralValue::Opaque => positional_id(argnames, 0, idx),
        _ => literal_to_id_string(value),
    }
}

/// The ID of an enum member: the last two names of its path.
pub open spec fn member_id(path: Seq<Seq<char>>) -> Seq<char> {
    if path.len() >= 2 {
        path[path.len() - 2] + seq!['.'] + path[path.len() - 1]
    } else {
        joined(path, "."@)
    }
}

pub fn enum_member_id(path: &[String]) -> (r: String)
    ensures
        r@ == member_id(texts(path@)),
{
    if path.len() >= 2 {
        let mut r = copy(path[path.len() - 2].as_str());
        r.push('.');
        r.append(path[path.len() - 1].as_str());
        assert(r@ =~= member_id(texts(path@)));
        r
    } else {
        join(path, ".")
    }
}

/// The ID of a resolved constant. A sequence without a text, or an opaque value, has its path.
pub open spec fn resolved_id(resolved: ResolvedView, style: ParamIdStyle) -> Seq<char> {
    match style {
        ParamIdStyle::SourcePath => joined(resolved.source_path, "."@),
        ParamIdStyle::RuntimeValue => if resolved.is_enum_member {
            member_id(resolved.source_path)
        } else if (resolved.value is Sequence || resolved.value is Opaque) && value_id(
            resolved.value,
        ).len() == 0 {
            joined(resolved.source_path, "."@)
        } else {
            value_id(resolved.value)
        },
    }
}

pub fn id_for_resolved(resolved: &ResolvedConstant, id_style: ParamIdStyle) -> (r: String)
    ensures
        r@ == resolved_id(resolved@, id_style),
{
    match id_style {
        ParamIdStyle::SourcePath => join(resolved.source_path.as_slice(), "."),
        ParamIdStyle::RuntimeValue => {
            if resolved.is_enum_member {
                enum_member_id(resolved.source_path.as_slice())
            } else {
                let id = literal_to_id_string(&resolved.value);
                let is_textless = matches!(
                    resolved.value,
                    LiteralValue::Sequence(_) | LiteralValue::Opaque
                );
                if is_textless && id.as_str().is_empty() {
                    join(resolved.source_path.as_slice(), ".")
                } else {
                    id
                }
            }
        },
    }
}

// ---------------------------------------------------------------------------------------------
// Values
// ---------------------------------------------------------------------------------------------
/// A value and its ID, or why there is none.
pub type CaseView = Result<(ValueView, Seq<char>), ObstacleView>;

/// Values and their IDs, or why there are none.
pub type CasesView = Result<(Seq<ValueView>, Seq<Seq<char>>), ObstacleView>;

pub open spec fn case_view(r: Result<(LiteralValue, String), Obstacle>) -> CaseView {
    match r {
        Ok((value, id)) => Ok((value@, id@)),
        Err(why) => Err(why@),
    }
}

pub open spec fn cases_view(r: Result<(Vec<LiteralValue>, Vec<String>), Obstacle>) -> CasesView {
    match r {
        Ok((values, ids)) => Ok((value_views(values@), texts(ids@))),
        Err(why) => Err(why@),
    }
}

/// A value and the parts of its ID, or why there is none.
pub type PartsView = Result<(ValueView, Seq<PartView>), ObstacleView>;

pub open spec fn parts_view(r: Result<(LiteralValue, Vec<IdPart>), Obstacle>) -> PartsView {
    match r {
        Ok((value, parts)) => Ok((value@, part_views(parts@))),
        Err(why) => Err(why@),
    }
}

/// Values and the parts of their IDs, or why there are none.
pub type ListView = Result<(Seq<ValueView>, Seq<PartView>), ObstacleView>;

pub open spec fn list_view(r: Result<(Vec<LiteralValue>, Vec<IdPart>), Obstacle>) -> ListView {
    match r {
        Ok((values, parts)) => Ok((value_views(values@), part_views(parts@))),
        Err(why) => Err(why@),
    }
}

/// A resolved constant has no text of its own in an ID: it is opaque, or a sequence where pytest
/// would show the value.
pub open spec fn is_textless(resolved: ResolvedView, style: ParamIdStyle) -> bool {
    resolved.value is Opaque || (resolved.value is Sequence && style == ParamIdStyle::RuntimeValue
        && !resolved.is_enum_member)
}

/// The only part of an ID.
pub open spec fn one_part(value: ValueView, id: Seq<char>) -> Seq<PartView> {
    seq![PartView { text: id, is_opaque: value is Opaque }]
}

/// The parts of a sequence's ID: those of its elements, or an empty one.
pub open spec fn some_parts(parts: Seq<PartView>) -> Seq<PartView> {
    if parts.len() == 0 {
        seq![PartView { text: seq![], is_opaque: false }]
    } else {
        parts
    }
}

/// A value with its own ID.
pub open spec fn plain_case(value: ValueView) -> PartsView {
    Ok((value, one_part(value, value_id(value))))
}

/// A value that can be counted but has no text.
pub open spec fn opaque_case() -> PartsView {
    Ok((ValueView::Opaque, one_part(ValueView::Opaque, seq![])))
}

/// The text of the first keyword argument of that name that is a string literal.
pub open spec fn text_kwarg(keywords: Seq<KeywordView>, name: Seq<char>, i: int) -> Option<
    Seq<char>,
>
    decreases keywords.len() - i,
{
    if i < 0 || i >= keywords.len() {
        None
    } else if keywords[i].arg == Some(name) && keywords[i].value is StringLiteral {
        Some(keywords[i].value->StringLiteral_0)
    } else {
        text_kwarg(keywords, name, i + 1)
    }
}

impl ContextView {
    /// The value of an expression and the parts of its ID.
    pub open spec fn literal_parts(self, e: ExprView) -> PartsView
        decreases e, 2int, 0int,
    {
        match e {
            ExprView::NumberLiteral(NumberView::Int { small, text }) => match small {
                Some(i) => plain_case(ValueView::Int(i)),
                None => plain_case(ValueView::Text(integer_text(text))),
            },
            ExprView::NumberLiteral(NumberView::Float { scientific }) => plain_case(
                ValueView::Float(float_text(scientific)),
            ),
            ExprView::NumberLiteral(NumberView::Complex { .. }) => Err(
                unsupported_view("complex numbers"@),
            ),
            ExprView::StringLiteral(s) => plain_case(ValueView::Text(s)),
            ExprView::BooleanLiteral(b) => plain_case(ValueView::Bool(b)),
            ExprView::UnaryOp { minus, operand } => if !minus {
                opaque_case()
            } else {
                match large_integer(*operand) {
                    Some(text) => plain_case(ValueView::Text(seq!['-'] + text)),
                    None => match self.literal_parts(*operand) {
                        Err(why) => Err(why),
                        Ok((inner, _)) => match negated(inner) {
                            Some(value) => plain_case(value),
                            None => opaque_case(),
                        },
                    },
                }
            },
            ExprView::NoneLiteral => plain_case(ValueView::NoneValue),
            ExprView::Tuple(elts) => match self.style {
                // Nested list/tuple as a parameter value is opaque to pytest (`argnameN`).
                ParamIdStyle::RuntimeValue => opaque_case(),
                ParamIdStyle::SourcePath => self.sequence_parts(elts),
            },
            ExprView::List(elts) => match self.style {
                ParamIdStyle::RuntimeValue => opaque_case(),
                ParamIdStyle::SourcePath => self.sequence_parts(elts),
            },
            ExprView::Name(id) => self.reference_parts(e, id),
            ExprView::Attribute { attr, .. } => self.reference_parts(e, attr),
            ExprView::Call { func, args, keywords } => if calls_param(*func) {
                self.param_parts(args, keywords)
            } else {
                opaque_case()
            },
            ExprView::Comprehension => Err(ObstacleView::Cannot(ReasonView::Comprehension)),
            _ => opaque_case(),
        }
    }

    /// A sequence of the values, its ID the parts of theirs.
    pub open spec fn sequence_parts(self, elts: Seq<ExprView>) -> PartsView
        decreases elts, 1int, 0int,
    {
        match self.literal_lists(elts, 0, seq![], seq![]) {
            Ok((values, parts)) => Ok((ValueView::Sequence(values), some_parts(parts))),
            Err(why) => Err(why),
        }
    }

    /// `values` and `parts` followed by those of the expressions from `i` on.
    pub open spec fn literal_lists(
        self,
        elts: Seq<ExprView>,
        i: int,
        values: Seq<ValueView>,
        parts: Seq<PartView>,
    ) -> ListView
        decreases elts, 0int, elts.len() - i,
    {
        if i < 0 || i >= elts.len() {
            Ok((values, parts))
        } else {
            match self.literal_parts(elts[i]) {
                Err(why) => Err(why),
                Ok((value, more)) => self.literal_lists(
                    elts,
                    i + 1,
                    values.push(value),
                    parts + more,
                ),
            }
        }
    }

    /// A name or an attribute, whose own name is `name`: what it resolves to. What does not
    /// resolve has an unknown runtime value, and is opaque where the source path is the ID. A
    /// sequence is opaque to pytest.
    pub open spec fn reference_parts(self, e: ExprView, name: Seq<char>) -> PartsView {
        let found = match self.resolver {
            Some(resolver) => resolver.resolution(self.enclosing_class, e),
            None => Ok(None),
        };
        match found {
            Err(module) => Err(ObstacleView::Needs(module)),
            Ok(Some(resolved)) => Ok(
                (
                    resolved.value,
                    seq![
                        PartView {
                            text: resolved_id(resolved, self.style),
                            is_opaque: is_textless(resolved, self.style),
                        },
                    ],
                ),
            ),
            Ok(None) => match self.style {
                ParamIdStyle::RuntimeValue => Err(
                    ObstacleView::Cannot(ReasonView::VariableReference(name)),
                ),
                ParamIdStyle::SourcePath => opaque_case(),
            },
        }
    }

    /// A `pytest.param(...)` call: its `id` argument, where it has one, is the ID.
    pub open spec fn param_parts(self, args: Seq<ExprView>, keywords: Seq<KeywordView>) -> PartsView
        decreases args, 1int, 0int,
    {
        let case = if args.len() == 0 {
            opaque_case()
        } else if args.len() == 1 {
            self.literal_parts(args[0])
        } else {
            match self.literal_lists(args, 0, seq![], seq![]) {
                Ok((values, parts)) => Ok((ValueView::Sequence(values), parts)),
                Err(why) => Err(why),
            }
        };
        match text_kwarg(keywords, "id"@, 0) {
            None => case,
            Some(text) => match case {
                Ok((value, _)) => Ok((value, seq![PartView { text, is_opaque: false }])),
                Err(why) => Err(why),
            },
        }
    }

    /// The value and ID of an expression.
    pub open spec fn literal_case(self, e: ExprView) -> CaseView {
        match self.literal_parts(e) {
            Ok((value, parts)) => Ok((value, joined(part_texts(parts), "-"@))),
            Err(why) => Err(why),
        }
    }
}

fn single(value: LiteralValue, id: String) -> (r: (LiteralValue, Vec<IdPart>))
    ensures
        r.0@ == value@,
        part_views(r.1@) == one_part(value@, id@),
{
    let is_opaque = matches!(value, LiteralValue::Opaque);
    let ghost part = PartView { text: id@, is_opaque };
    let mut parts: Vec<IdPart> = Vec::new();
    parts.push(IdPart { text: id, is_opaque });
    assert(part_views(parts@) =~= seq![part]);
    (value, parts)
}

fn plain(value: LiteralValue) -> (r: Result<(LiteralValue, Vec<IdPart>), Obstacle>)
    ensures
        parts_view(r) == plain_case(value@),
{
    let id = literal_to_id_string(&value);
    Ok(single(value, id))
}

fn opaque() -> (r: Result<(LiteralValue, Vec<IdPart>), Obstacle>)
    ensures
        parts_view(r) == opaque_case(),
{
    let none = String::new();
    assert(none@ =~= Seq::<char>::empty());
    Ok(single(LiteralValue::Opaque, none))
}

fn is_named(keyword: &PyKeyword, name: &str) -> (r: bool)
    ensures
        r == (keyword@.arg == Some(name@)),
{
    match &keyword.arg {
        Some(arg) => same(arg.as_str(), name),
        None => false,
    }
}

pub fn string_kwarg(keywords: &[PyKeyword], name: &str) -> (r: Option<String>)
    ensures
        match r {
            Some(text) => text_kwarg(keyword_views(keywords@), name@, 0) == Some(text@),
            None => text_kwarg(keyword_views(keywords@), name@, 0) is None,
        },
{
    let ghost views = keyword_views(keywords@);
    let mut i: usize = 0;
    while i < keywords.len()
        invariant
            i <= keywords@.len(),
            views == keyword_views(keywords@),
            text_kwarg(views, name@, 0) == text_kwarg(views, name@, i as int),
        decreases keywords@.len() - i,
    {
        assert(views[i as int] == keywords@[i as int]@);
        if is_named(&keywords[i], name) {
            if let PyExpr::StringLiteral(s) = &keywords[i].value {
                return Some(copy(s.as_str()));
            }
        }
        i = i + 1;
    }
    None
}

impl<'a> Context<'a> {
    /// Extract a literal value from an expression.
    ///
    /// Returns `(value, id)` where `id` is the string representation for test case IDs.
    pub fn extract_literal(&self, expr: &PyExpr) -> (r: Result<(LiteralValue, String), Obstacle>)
        ensures
            case_view(r) == self@.literal_case(expr@),
    {
        let (value, parts) = self.extract_parts(expr)?;
        let id = join_parts(parts.as_slice());
        Ok((value, id))
    }

    /// Extract a literal value from an expression, with the parts of its ID.
    pub fn extract_parts(&self, expr: &PyExpr) -> (r: Result<
        (LiteralValue, Vec<IdPart>),
        Obstacle,
    >)
        ensures
            parts_view(r) == self@.literal_parts(expr@),
        decreases expr@, 2int,
    {
        match expr {
            PyExpr::NumberLiteral(number) => match number {
                PyNumber::Int { small, text } => match small {
                    Some(i) => plain(LiteralValue::Int(*i)),
                    None => plain(LiteralValue::String(integer_repr(text.as_str()))),
                },
                PyNumber::Float { scientific } => plain(
                    LiteralValue::Float(float_repr(scientific.as_str())),
                ),
                PyNumber::Complex { .. } => Err(unsupported("complex numbers")),
            },
            PyExpr::StringLiteral(s) => plain(LiteralValue::String(copy(s.as_str()))),
            PyExpr::BooleanLiteral(b) => plain(LiteralValue::Bool(*b)),
            PyExpr::UnaryOp { minus, operand } => {
                if !*minus {
                    return opaque();
                }
                if let Some(text) = large_integer_text(operand) {
                    return plain(LiteralValue::String(with_minus(text.as_str())));
                }
                assert(decreases_to!(expr@ => expr@->operand));
                let (inner, _) = self.extract_parts(operand)?;
                match negate(inner) {
                    Some(value) => plain(value),
                    None => opaque(),
                }
            },
            PyExpr::NoneLiteral => plain(LiteralValue::NoneValue),
            PyExpr::Tuple(elts) => match self.style {
                ParamIdStyle::RuntimeValue => opaque(),
                ParamIdStyle::SourcePath => {
                    assert(decreases_to!(expr@ => expr@->Tuple_0));
                    self.extract_sequence(elts.as_slice())
                },
            },
            PyExpr::List(elts) => match self.style {
                ParamIdStyle::RuntimeValue => opaque(),
                ParamIdStyle::SourcePath => {
                    assert(decreases_to!(expr@ => expr@->List_0));
                    self.extract_sequence(elts.as_slice())
                },
            },
            PyExpr::Name(id) => self.extract_reference(expr, id.as_str()),
            PyExpr::Attribute { attr, .. } => self.extract_reference(expr, attr.as_str()),
            PyExpr::Call { func, args, keywords } => {
                if is_pytest_param(func) {
                    assert(decreases_to!(expr@ => expr@->args));
                    self.extract_pytest_param(args.as_slice(), keywords.as_slice())
                } else {
                    opaque()
                }
            },
            PyExpr::Comprehension => Err(Obstacle::Cannot(CannotExpandReason::Comprehension)),
            _ => opaque(),
        }
    }

    fn extract_lists(&self, elts: &[PyExpr]) -> (r: Result<
        (Vec<LiteralValue>, Vec<IdPart>),
        Obstacle,
    >)
        ensures
            list_view(r) == self@.literal_lists(expr_views(elts@), 0, seq![], seq![]),
        decreases expr_views(elts@), 0int,
    {
        let ghost views = expr_views(elts@);
        let ghost whole = self@.literal_lists(views, 0, seq![], seq![]);
        let mut values: Vec<LiteralValue> = Vec::new();
        let mut parts: Vec<IdPart> = Vec::new();
        assert(value_views(values@) =~= Seq::<ValueView>::empty());
        assert(part_views(parts@) =~= Seq::<PartView>::empty());
        let mut i: usize = 0;
        while i < elts.len()
            invariant
                i <= elts@.len(),
                views == expr_views(elts@),
                whole == self@.literal_lists(views, 0, seq![], seq![]),
                whole == self@.literal_lists(
                    views,
                    i as int,
                    value_views(values@),
                    part_views(parts@),
                ),
            decreases elts@.len() - i,
        {
            assert(views[i as int] == elts@[i as int]@);
            assert(decreases_to!(views => views[i as int]));
            let (value, mut more) = self.extract_parts(&elts[i])?;
            let ghost before = (values@, parts@);
            let ghost added = (value@, more@);
            values.push(value);
            parts.append(&mut more);
            assert(value_views(values@) =~= value_views(before.0).push(added.0));
            assert(part_views(parts@) =~= part_views(before.1) + part_views(added.1));
            i = i + 1;
        }
        Ok((values, parts))
    }

    fn extract_sequence(&self, elts: &[PyExpr]) -> (r: Result<
        (LiteralValue, Vec<IdPart>),
        Obstacle,
    >)
        ensures
            parts_view(r) == self@.sequence_parts(expr_views(elts@)),
        decreases expr_views(elts@), 1int,
    {
        let (values, mut parts) = self.extract_lists(elts)?;
        if parts.len() == 0 {
            let none = String::new();
            assert(none@ =~= Seq::<char>::empty());
            parts.push(IdPart { text: none, is_opaque: false });
            assert(part_views(parts@) =~= some_parts(seq![]));
        }
        Ok((LiteralValue::Sequence(values), parts))
    }

    fn extract_reference(&self, expr: &PyExpr, name: &str) -> (r: Result<
        (LiteralValue, Vec<IdPart>),
        Obstacle,
    >)
        ensures
            parts_view(r) == self@.reference_parts(expr@, name@),
    {
        if let Some(resolver) = self.resolver {
            match resolver.resolve_in_class(self.enclosing_class, expr) {
                Err(module) => {
                    return Err(Obstacle::Needs(module));
                },
                Ok(Some(resolved)) => {
                    let text = id_for_resolved(&resolved, self.style);
                    let is_opaque = match (&resolved.value, self.style) {
                        (LiteralValue::Opaque, _) => true,
                        (LiteralValue::Sequence(_), ParamIdStyle::RuntimeValue) => {
                            !resolved.is_enum_member
                        },
                        _ => false,
                    };
                    let ghost part = PartView { text: text@, is_opaque };
                    let mut parts: Vec<IdPart> = Vec::new();
                    parts.push(IdPart { text, is_opaque });
                    assert(part_views(parts@) =~= seq![part]);
                    return Ok((resolved.value, parts));
                },
                Ok(None) => {},
            }
        }
        match self.style {
            // Pytest would use str(runtime value). Guessing `argnameN` is a silent mismatch.
            ParamIdStyle::RuntimeValue => Err(
                Obstacle::Cannot(CannotExpandReason::VariableReference(copy(name))),
            ),
            ParamIdStyle::SourcePath => opaque(),
        }
    }

    fn extract_pytest_param(&self, args: &[PyExpr], keywords: &[PyKeyword]) -> (r: Result<
        (LiteralValue, Vec<IdPart>),
        Obstacle,
    >)
        ensures
            parts_view(r) == self@.param_parts(expr_views(args@), keyword_views(keywords@)),
        decreases expr_views(args@), 1int,
    {
        let (value, parts) = if args.len() == 0 {
            opaque()?
        } else if args.len() == 1 {
            assert(expr_views(args@)[0] == args@[0]@);
            assert(decreases_to!(expr_views(args@) => expr_views(args@)[0]));
            self.extract_parts(&args[0])?
        } else {
            let (values, parts) = self.extract_lists(args)?;
            (LiteralValue::Sequence(values), parts)
        };
        match string_kwarg(keywords, "id") {
            Some(text) => {
                let ghost part = PartView { text: text@, is_opaque: false };
                let mut explicit: Vec<IdPart> = Vec::new();
                explicit.push(IdPart { text, is_opaque: false });
                assert(part_views(explicit@) =~= seq![part]);
                Ok((value, explicit))
            },
            None => Ok((value, parts)),
        }
    }
}

// ---------------------------------------------------------------------------------------------
// The arguments of a decorator
// ---------------------------------------------------------------------------------------------
/// The elements of a list or tuple.
pub open spec fn elements_of(e: ExprView) -> Option<Seq<ExprView>> {
    match e {
        ExprView::List(elts) => Some(elts),
        ExprView::Tuple(elts) => Some(elts),
        _ => None,
    }
}

pub fn sequence_elts(expr: &PyExpr) -> (r: Option<&[PyExpr]>)
    ensures
        match r {
            Some(elts) => elements_of(expr@) == Some(expr_views(elts@)),
            None => elements_of(expr@) is None,
        },
{
    match expr {
        PyExpr::Tuple(elts) => Some(elts.as_slice()),
        PyExpr::List(elts) => Some(elts.as_slice()),
        _ => None,
    }
}

/// The IDs that the elements of a resolved constant have by its name: `DATA[1]`.
pub open spec fn indexed_ids(name: Seq<char>, values: Seq<ValueView>) -> Seq<Seq<char>> {
    Seq::new(values.len(), |i: int| name + seq!['['] + value_id(values[i]) + seq![']'])
}

/// The IDs that the elements of a resolved constant have by their values.
pub open spec fn resolved_case_ids(values: Seq<ValueView>, argnames: Seq<Seq<char>>) -> Seq<
    Seq<char>,
> {
    Seq::new(values.len(), |i: int| resolved_case_id(values[i], argnames, i as nat))
}

/// A keyword argument of that name stands among them.
pub open spec fn has_kwarg(keywords: Seq<KeywordView>, name: Seq<char>) -> bool {
    exists|i: int| 0 <= i < keywords.len() && (#[trigger] keywords[i]).arg == Some(name)
}

/// The custom IDs of a decorator, where it has some; the error is a module that has to be loaded.
pub type IdsView = Result<Option<Seq<Seq<char>>>, Seq<Seq<char>>>;

pub open spec fn ids_view(r: Result<Option<Vec<String>>, Vec<String>>) -> IdsView {
    match r {
        Ok(Some(ids)) => Ok(Some(texts(ids@))),
        Ok(None) => Ok(None),
        Err(module) => Err(texts(module@)),
    }
}

impl ContextView {
    /// One case of a multi-argument `parametrize`: `values` and `parts` followed by those of the
    /// components from `i` on; an opaque component gets the ID of its argument.
    pub open spec fn component_cases(
        self,
        components: Seq<ExprView>,
        i: int,
        argnames: Seq<Seq<char>>,
        case: nat,
        values: Seq<ValueView>,
        parts: Seq<Seq<char>>,
    ) -> CasesView
        decreases components.len() - i,
    {
        if i < 0 || i >= components.len() {
            Ok((values, parts))
        } else {
            match self.literal_parts(components[i]) {
                Err(why) => Err(why),
                Ok((value, own)) => self.component_cases(
                    components,
                    i + 1,
                    argnames,
                    case,
                    values.push(value),
                    parts.push(
                        if own.len() == 1 && own[0].is_opaque {
                            positional(argnames, i, case)
                        } else {
                            joined(part_texts(own), "-"@)
                        },
                    ),
                ),
            }
        }
    }

    /// The value is a sequence that pytest takes apart into the arguments.
    pub open spec fn is_unpacked(
        self,
        value: ValueView,
        parts: Seq<PartView>,
        argnames: Seq<Seq<char>>,
    ) -> bool {
        self.style == ParamIdStyle::RuntimeValue && argnames.len() > 1 && value is Sequence
            && parts.len() == 1 && parts[0].is_opaque
    }

    /// The value of an expression with its final ID. A sequence that is taken apart into the
    /// arguments has the IDs of its elements.
    pub open spec fn finished_case(
        self,
        case: PartsView,
        argnames: Seq<Seq<char>>,
        number: nat,
    ) -> CaseView {
        match case {
            Ok((value, parts)) => Ok(
                (
                    value,
                    if self.is_unpacked(value, parts, argnames) {
                        resolved_case_id(value, argnames, number)
                    } else {
                        final_id(parts, argnames, number)
                    },
                ),
            ),
            Err(why) => Err(why),
        }
    }

    /// One pytest parametrize case: nested list/tuple/dict values use `argnameN` IDs.
    pub open spec fn pytest_case(
        self,
        e: ExprView,
        argnames: Seq<Seq<char>>,
        number: nat,
    ) -> CaseView {
        match elements_of(e) {
            Some(components) if argnames.len() > 1 => match self.component_cases(
                components,
                0,
                argnames,
                number,
                seq![],
                seq![],
            ) {
                Ok((values, parts)) => Ok((ValueView::Sequence(values), joined(parts, "-"@))),
                Err(why) => Err(why),
            },
            _ => self.finished_case(self.literal_parts(e), argnames, number),
        }
    }

    /// `values` and `ids` followed by those of the cases from `i` on.
    pub open spec fn listed_cases(
        self,
        elts: Seq<ExprView>,
        i: int,
        argnames: Seq<Seq<char>>,
        values: Seq<ValueView>,
        ids: Seq<Seq<char>>,
    ) -> CasesView
        decreases elts.len() - i,
    {
        if i < 0 || i >= elts.len() {
            Ok((values, ids))
        } else {
            let case = match self.style {
                ParamIdStyle::RuntimeValue => self.pytest_case(elts[i], argnames, i as nat),
                ParamIdStyle::SourcePath => self.finished_case(
                    self.literal_parts(elts[i]),
                    argnames,
                    i as nat,
                ),
            };
            match case {
                Err(why) => Err(why),
                Ok((value, id)) => self.listed_cases(
                    elts,
                    i + 1,
                    argnames,
                    values.push(value),
                    ids.push(id),
                ),
            }
        }
    }

    /// The values and IDs that the second decorator argument gives.
    pub open spec fn argvalues(self, e: ExprView, argnames: Seq<Seq<char>>) -> CasesView {
        match e {
            ExprView::List(elts) => self.listed_cases(elts, 0, argnames, seq![], seq![]),
            ExprView::Tuple(elts) => self.listed_cases(elts, 0, argnames, seq![], seq![]),
            ExprView::Name(id) => {
                let found = match self.resolver {
                    Some(resolver) => resolver.resolution(self.enclosing_class, e),
                    None => Ok(None),
                };
                match found {
                    Err(module) => Err(ObstacleView::Needs(module)),
                    Ok(Some(ResolvedView { value: ValueView::Sequence(values), source_path, .. })) => Ok(
                        (
                            values,
                            match self.style {
                                ParamIdStyle::SourcePath => indexed_ids(
                                    joined(source_path, "."@),
                                    values,
                                ),
                                ParamIdStyle::RuntimeValue => resolved_case_ids(values, argnames),
                            },
                        ),
                    ),
                    _ => Err(ObstacleView::Cannot(ReasonView::VariableReference(id))),
                }
            },
            ExprView::Call { func, .. } => Err(
                ObstacleView::Cannot(ReasonView::FunctionCall(call_name(*func))),
            ),
            ExprView::Comprehension => Err(ObstacleView::Cannot(ReasonView::Comprehension)),
            _ => Err(unsupported_view("argvalues must be a list or tuple"@)),
        }
    }

    /// `done` followed by the IDs from `i` on: a string literal as it is written, any other value
    /// by its ID.
    pub open spec fn listed_ids(self, elts: Seq<ExprView>, i: int, done: Seq<Seq<char>>) -> IdsView
        decreases elts.len() - i,
    {
        if i < 0 || i >= elts.len() {
            Ok(Some(done))
        } else {
            match elts[i] {
                ExprView::StringLiteral(s) => self.listed_ids(elts, i + 1, done.push(s)),
                _ => match self.literal_case(elts[i]) {
                    Ok((value, _)) => self.listed_ids(elts, i + 1, done.push(value_id(value))),
                    Err(ObstacleView::Needs(module)) => Err(module),
                    Err(ObstacleView::Cannot(_)) => Ok(None),
                },
            }
        }
    }

    /// The custom IDs that the first usable `ids` argument from `i` on gives.
    pub open spec fn custom_ids(self, keywords: Seq<KeywordView>, i: int) -> IdsView
        decreases keywords.len() - i,
    {
        if i < 0 || i >= keywords.len() {
            Ok(None)
        } else if keywords[i].arg != Some("ids"@) {
            self.custom_ids(keywords, i + 1)
        } else {
            match self.literal_case(keywords[i].value) {
                Err(ObstacleView::Needs(module)) => Err(module),
                Ok((ValueView::Sequence(values), _)) => Ok(Some(value_ids(values))),
                _ => match keywords[i].value {
                    ExprView::List(elts) => self.listed_ids(elts, 0, seq![]),
                    _ => self.custom_ids(keywords, i + 1),
                },
            }
        }
    }
}

/// What a decorator is: a cases specification, nothing to do with cases, or an obstacle.
pub type DecoratorView = Result<Option<SpecView>, ObstacleView>;

pub open spec fn decorator_view(r: Result<Option<CasesSpec>, Obstacle>) -> DecoratorView {
    match r {
        Ok(Some(spec)) => Ok(Some(spec@)),
        Ok(None) => Ok(None),
        Err(why) => Err(why@),
    }
}

/// What a decorator says about cases.
pub open spec fn decorator_spec(
    e: ExprView,
    resolver: Option<ResolverView>,
    enclosing_class: Option<Seq<char>>,
) -> DecoratorView {
    match e {
        ExprView::Call { func, args, keywords } => match style_of(*func) {
            None => Ok(None),
            Some(style) => {
                let context = ContextView { resolver, enclosing_class, style };
                if args.len() < 2 {
                    Err(unsupported_view("missing required arguments"@))
                } else {
                    match argnames_of(args[0]) {
                        Err(why) => Err(why),
                        Ok(argnames) => match context.argvalues(args[1], argnames) {
                            Err(why) => Err(why),
                            Ok((argvalues, value_ids)) => match context.custom_ids(keywords, 0) {
                                Err(module) => Err(ObstacleView::Needs(module)),
                                Ok(ids) => if style == ParamIdStyle::RuntimeValue && has_kwarg(
                                    keywords,
                                    "ids"@,
                                ) && ids is None {
                                    Err(unsupported_view("ids= is not a static list of strings"@))
                                } else {
                                    Ok(Some(SpecView { argnames, argvalues, value_ids, ids }))
                                },
                            },
                        },
                    }
                }
            },
        },
        _ => Ok(None),
    }
}

/// The specifications of stacked decorators, or the first obstacle.
pub type SpecsView = Result<Seq<SpecView>, ObstacleView>;

/// `done` followed by the specifications of the decorators from `i` on.
pub open spec fn specs_from(
    decorators: Seq<ExprView>,
    i: int,
    resolver: Option<ResolverView>,
    enclosing_class: Option<Seq<char>>,
    done: Seq<SpecView>,
) -> SpecsView
    decreases decorators.len() - i,
{
    if i < 0 || i >= decorators.len() {
        Ok(done)
    } else {
        match decorator_spec(decorators[i], resolver, enclosing_class) {
            Err(why) => Err(why),
            Ok(Some(spec)) => specs_from(
                decorators,
                i + 1,
                resolver,
                enclosing_class,
                done.push(spec),
            ),
            Ok(None) => specs_from(decorators, i + 1, resolver, enclosing_class, done),
        }
    }
}

/// What the decorators of a function or class say about cases, not yet expanded. The error is a
/// module that has to be loaded first.
pub open spec fn decorators_info(
    decorators: Seq<ExprView>,
    resolver: Option<ResolverView>,
    enclosing_class: Option<Seq<char>>,
) -> Result<InfoView, Seq<Seq<char>>> {
    match specs_from(decorators, 0, resolver, enclosing_class, seq![]) {
        Err(ObstacleView::Needs(module)) => Err(module),
        Err(ObstacleView::Cannot(reason)) => Ok(InfoView::CannotExpand(reason)),
        Ok(specs) => Ok(
            if specs.len() == 0 {
                InfoView::NotDecorated
            } else {
                InfoView::Specs(specs)
            },
        ),
    }
}

/// What the decorators of a function expand to. The error is a module that has to be loaded
/// first.
pub open spec fn decorators_expansion(
    decorators: Seq<ExprView>,
    resolver: Option<ResolverView>,
    enclosing_class: Option<Seq<char>>,
) -> Result<ExpansionView, Seq<Seq<char>>> {
    match decorators_info(decorators, resolver, enclosing_class) {
        Err(module) => Err(module),
        Ok(InfoView::NotDecorated) => Ok(ExpansionView::NotDecorated),
        Ok(InfoView::CannotExpand(reason)) => Ok(ExpansionView::CannotExpand(reason)),
        Ok(InfoView::Specs(specs)) => Ok(ExpansionView::Expanded(expanded_ids(specs))),
    }
}

impl<'a> Context<'a> {
    fn finish(
        &self,
        case: (LiteralValue, Vec<IdPart>),
        argnames: &[String],
        idx: usize,
    ) -> (r: (LiteralValue, String))
        ensures
            case_view(Ok(r)) == self@.finished_case(
                Ok((case.0@, part_views(case.1@))),
                texts(argnames@),
                idx as nat,
            ),
    {
        let is_unpacked = match (&case.0, self.style) {
            (LiteralValue::Sequence(_), ParamIdStyle::RuntimeValue) => {
                argnames.len() > 1 && case.1.len() == 1 && case.1[0].is_opaque
            },
            _ => false,
        };
        let id = if is_unpacked {
            id_for_resolved_case_value(&case.0, argnames, idx)
        } else {
            finalize_pytest_id(case.1.as_slice(), argnames, idx)
        };
        (case.0, id)
    }

    fn extract_components(
        &self,
        components: &[PyExpr],
        argnames: &[String],
        idx: usize,
    ) -> (r: Result<(Vec<LiteralValue>, Vec<String>), Obstacle>)
        ensures
            cases_view(r) == self@.component_cases(
                expr_views(components@),
                0,
                texts(argnames@),
                idx as nat,
                seq![],
                seq![],
            ),
    {
        let ghost views = expr_views(components@);
        let ghost names = texts(argnames@);
        let ghost whole = self@.component_cases(views, 0, names, idx as nat, seq![], seq![]);
        let mut values: Vec<LiteralValue> = Vec::new();
        let mut parts: Vec<String> = Vec::new();
        assert(value_views(values@) =~= Seq::<ValueView>::empty());
        assert(texts(parts@) =~= Seq::<Seq<char>>::empty());
        let mut i: usize = 0;
        while i < components.len()
            invariant
                i <= components@.len(),
                views == expr_views(components@),
                names == texts(argnames@),
                whole == self@.component_cases(views, 0, names, idx as nat, seq![], seq![]),
                whole == self@.component_cases(
                    views,
                    i as int,
                    names,
                    idx as nat,
                    value_views(values@),
                    texts(parts@),
                ),
            decreases components@.len() - i,
        {
            assert(views[i as int] == components@[i as int]@);
            let (value, own) = self.extract_parts(&components[i])?;
            let part = if own.len() == 1 && own[0].is_opaque {
                positional_id(argnames, i, idx)
            } else {
                join_parts(own.as_slice())
            };
            let ghost before = (values@, parts@);
            let ghost added = (value@, part@);
            values.push(value);
            parts.push(part);
            assert(value_views(values@) =~= value_views(before.0).push(added.0));
            assert(texts(parts@) =~= texts(before.1).push(added.1));
            i = i + 1;
        }
        Ok((values, parts))
    }

    /// One pytest parametrize case: nested list/tuple/dict values use `argnameN` IDs.
    pub fn extract_pytest_case(
        &self,
        elt: &PyExpr,
        argnames: &[String],
        idx: usize,
    ) -> (r: Result<(LiteralValue, String), Obstacle>)
        ensures
            case_view(r) == self@.pytest_case(elt@, texts(argnames@), idx as nat),
    {
        if argnames.len() > 1 {
            if let Some(components) = sequence_elts(elt) {
                let (values, parts) = self.extract_components(components, argnames, idx)?;
                return Ok((LiteralValue::Sequence(values), join(parts.as_slice(), "-")));
            }
        }
        let case = self.extract_parts(elt)?;
        Ok(self.finish(case, argnames, idx))
    }

    fn extract_listed(&self, elts: &[PyExpr], argnames: &[String]) -> (r: Result<
        (Vec<LiteralValue>, Vec<String>),
        Obstacle,
    >)
        ensures
            cases_view(r) == self@.listed_cases(
                expr_views(elts@),
                0,
                texts(argnames@),
                seq![],
                seq![],
            ),
    {
        let ghost views = expr_views(elts@);
        let ghost names = texts(argnames@);
        let ghost whole = self@.listed_cases(views, 0, names, seq![], seq![]);
        let mut values: Vec<LiteralValue> = Vec::new();
        let mut ids: Vec<String> = Vec::new();
        assert(value_views(values@) =~= Seq::<ValueView>::empty());
        assert(texts(ids@) =~= Seq::<Seq<char>>::empty());
        let mut i: usize = 0;
        while i < elts.len()
            invariant
                i <= elts@.len(),
                views == expr_views(elts@),
                names == texts(argnames@),
                whole == self@.listed_cases(views, 0, names, seq![], seq![]),
                whole == self@.listed_cases(
                    views,
                    i as int,
                    names,
                    value_views(values@),
                    texts(ids@),
                ),
            decreases elts@.len() - i,
        {
            assert(views[i as int] == elts@[i as int]@);
            let (value, id) = match self.style {
                ParamIdStyle::RuntimeValue => self.extract_pytest_case(&elts[i], argnames, i)?,
                ParamIdStyle::SourcePath => {
                    let case = self.extract_parts(&elts[i])?;
                    self.finish(case, argnames, i)
                },
            };
            let ghost before = (values@, ids@);
            let ghost added = (value@, id@);
            values.push(value);
            ids.push(id);
            assert(value_views(values@) =~= value_views(before.0).push(added.0));
            assert(texts(ids@) =~= texts(before.1).push(added.1));
            i = i + 1;
        }
        Ok((values, ids))
    }

    /// Extract argument values from the second decorator argument.
    ///
    /// Returns `(values, value_ids)` where `value_ids` contains the ID string for each value.
    /// For opaque values (complex objects we can't evaluate), generates positional IDs
    /// using the corresponding argname (e.g., `data0`, `num1`).
    pub fn extract_argvalues(&self, expr: &PyExpr, argnames: &[String]) -> (r: Result<
        (Vec<LiteralValue>, Vec<String>),
        Obstacle,
    >)
        ensures
            cases_view(r) == self@.argvalues(expr@, texts(argnames@)),
    {
        match expr {
            PyExpr::List(elts) => self.extract_listed(elts.as_slice(), argnames),
            PyExpr::Tuple(elts) => self.extract_listed(elts.as_slice(), argnames),
            // A constant: `DATA = [1, 2, 3]` then `@cases("x", DATA)`.
            PyExpr::Name(id) => {
                if let Some(resolver) = self.resolver {
                    match resolver.resolve_in_class(self.enclosing_class, expr) {
                        Err(module) => {
                            return Err(Obstacle::Needs(module));
                        },
                        Ok(Some(resolved)) => {
                            if let LiteralValue::Sequence(values) = resolved.value {
                                let ids = match self.style {
                                    ParamIdStyle::SourcePath => index_ids(
                                        join(resolved.source_path.as_slice(), ".").as_str(),
                                        values.as_slice(),
                                    ),
                                    ParamIdStyle::RuntimeValue => ids_for_resolved_cases(
                                        values.as_slice(),
                                        argnames,
                                    ),
                                };
                                return Ok((values, ids));
                            }
                        },
                        Ok(None) => {},
                    }
                }
                Err(Obstacle::Cannot(CannotExpandReason::VariableReference(copy(id.as_str()))))
            },
            PyExpr::Call { func, .. } => Err(
                Obstacle::Cannot(CannotExpandReason::FunctionCall(get_call_name(func))),
            ),
            PyExpr::Comprehension => Err(Obstacle::Cannot(CannotExpandReason::Comprehension)),
            _ => Err(unsupported("argvalues must be a list or tuple")),
        }
    }

    fn extract_listed_ids(&self, elts: &[PyExpr]) -> (r: Result<Option<Vec<String>>, Vec<String>>)
        ensures
            ids_view(r) == self@.listed_ids(expr_views(elts@), 0, seq![]),
    {
        let ghost views = expr_views(elts@);
        let ghost whole = self@.listed_ids(views, 0, seq![]);
        let mut ids: Vec<String> = Vec::new();
        assert(texts(ids@) =~= Seq::<Seq<char>>::empty());
        let mut i: usize = 0;
        while i < elts.len()
            invariant
                i <= elts@.len(),
                views == expr_views(elts@),
                whole == self@.listed_ids(views, 0, seq![]),
                whole == self@.listed_ids(views, i as int, texts(ids@)),
            decreases elts@.len() - i,
        {
            assert(views[i as int] == elts@[i as int]@);
            let ghost before = ids@;
            match &elts[i] {
                PyExpr::StringLiteral(s) => {
                    ids.push(copy(s.as_str()));
                    assert(texts(ids@) =~= texts(before).push(s@));
                },
                _ => match self.extract_literal(&elts[i]) {
                    Ok((value, _)) => {
                        ids.push(literal_to_id_string(&value));
                        assert(texts(ids@) =~= texts(before).push(value_id(value@)));
                    },
                    Err(Obstacle::Needs(module)) => {
                        return Err(module);
                    },
                    Err(Obstacle::Cannot(_)) => {
                        return Ok(None);
                    },
                },
            }
            i = i + 1;
        }
        Ok(Some(ids))
    }

    /// Extract the `ids` keyword argument if present.
    pub fn extract_ids_kwarg(&self, keywords: &[PyKeyword]) -> (r: Result<
        Option<Vec<String>>,
        Vec<String>,
    >)
        ensures
            ids_view(r) == self@.custom_ids(keyword_views(keywords@), 0),
    {
        let ghost views = keyword_views(keywords@);
        let ghost whole = self@.custom_ids(views, 0);
        let mut i: usize = 0;
        while i < keywords.len()
            invariant
                i <= keywords@.len(),
                views == keyword_views(keywords@),
                whole == self@.custom_ids(views, 0),
                whole == self@.custom_ids(views, i as int),
            decreases keywords@.len() - i,
        {
            assert(views[i as int] == keywords@[i as int]@);
            if is_named(&keywords[i], "ids") {
                match self.extract_literal(&keywords[i].value) {
                    Err(Obstacle::Needs(module)) => {
                        return Err(module);
                    },
                    Ok((LiteralValue::Sequence(values), _)) => {
                        return Ok(Some(ids_of_values(values.as_slice())));
                    },
                    _ => {},
                }
                if let PyExpr::List(elts) = &keywords[i].value {
                    return self.extract_listed_ids(elts.as_slice());
                }
            }
            i = i + 1;
        }
        Ok(None)
    }
}

fn ids_of_values(values: &[LiteralValue]) -> (r: Vec<String>)
    ensures
        texts(r@) == value_ids(value_views(values@)),
{
    let mut r: Vec<String> = Vec::new();
    let mut i: usize = 0;
    while i < values.len()
        invariant
            i <= values@.len(),
            r@.len() == i,
            forall|j: int| 0 <= j < i ==> (#[trigger] r@[j])@ == value_id(values@[j]@),
        decreases values@.len() - i,
    {
        r.push(literal_to_id_string(&values[i]));
        i = i + 1;
    }
    assert(texts(r@) =~= value_ids(value_views(values@)));
    r
}

fn index_ids(name: &str, values: &[LiteralValue]) -> (r: Vec<String>)
    ensures
        texts(r@) == indexed_ids(name@, value_views(values@)),
{
    let ghost wanted = indexed_ids(name@, value_views(values@));
    let mut r: Vec<String> = Vec::new();
    let mut i: usize = 0;
    while i < values.len()
        invariant
            i <= values@.len(),
            wanted == indexed_ids(name@, value_views(values@)),
            r@.len() == i,
            forall|j: int| 0 <= j < i ==> (#[trigger] r@[j])@ == wanted[j],
        decreases values@.len() - i,
    {
        let mut id = copy(name);
        id.push('[');
        id.append(literal_to_id_string(&values[i]).as_str());
        id.push(']');
        assert(id@ =~= wanted[i as int]);
        r.push(id);
        i = i + 1;
    }
    assert(texts(r@) =~= wanted);
    r
}

fn ids_for_resolved_cases(values: &[LiteralValue], argnames: &[String]) -> (r: Vec<String>)
    ensures
        texts(r@) == resolved_case_ids(value_views(values@), texts(argnames@)),
{
    let ghost wanted = resolved_case_ids(value_views(values@), texts(argnames@));
    let mut r: Vec<String> = Vec::new();
    let mut i: usize = 0;
    while i < values.len()
        invariant
            i <= values@.len(),
            wanted == resolved_case_ids(value_views(values@), texts(argnames@)),
            r@.len() == i,
            forall|j: int| 0 <= j < i ==> (#[trigger] r@[j])@ == wanted[j],
        decreases values@.len() - i,
    {
        r.push(id_for_resolved_case_value(&values[i], argnames, i));
        i = i + 1;
    }
    assert(texts(r@) =~= wanted);
    r
}

fn names_kwarg(keywords: &[PyKeyword], name: &str) -> (r: bool)
    ensures
        r == has_kwarg(keyword_views(keywords@), name@),
{
    let ghost views = keyword_views(keywords@);
    let mut i: usize = 0;
    while i < keywords.len()
        invariant
            i <= keywords@.len(),
            views == keyword_views(keywords@),
            forall|j: int| 0 <= j < i ==> (#[trigger] views[j]).arg != Some(name@),
        decreases keywords@.len() - i,
    {
        assert(views[i as int] == keywords@[i as int]@);
        if is_named(&keywords[i], name) {
            return true;
        }
        i = i + 1;
    }
    false
}

/// Parse a single decorator to extract cases information. A decorator that has nothing to do with
/// cases gives none.
pub fn parse_single_decorator(
    decorator: &PyExpr,
    resolver: Option<&ConstantResolver>,
    enclosing_class: Option<&str>,
) -> (r: Result<Option<CasesSpec>, Obstacle>)
    ensures
        decorator_view(r) == decorator_spec(
            decorator@,
            resolver_view(resolver),
            str_text(enclosing_class),
        ),
{
    let (func, args, keywords) = match decorator {
        PyExpr::Call { func, args, keywords } => (func, args, keywords),
        _ => {
            return Ok(None);
        },
    };
    let id_style = match decorator_id_style(func) {
        Some(style) => style,
        None => {
            return Ok(None);
        },
    };
    if args.len() < 2 {
        return Err(unsupported("missing required arguments"));
    }
    proof {
        assert(expr_views(args@)[0] == args@[0]@);
        assert(expr_views(args@)[1] == args@[1]@);
    }
    let context = Context { resolver, enclosing_class, style: id_style };
    let argnames = extract_argnames(&args[0])?;
    let (argvalues, value_ids) = context.extract_argvalues(&args[1], argnames.as_slice())?;
    let ids = match context.extract_ids_kwarg(keywords.as_slice()) {
        Ok(ids) => ids,
        Err(module) => {
            return Err(Obstacle::Needs(module));
        },
    };
    if id_style == ParamIdStyle::RuntimeValue && names_kwarg(keywords.as_slice(), "ids")
        && ids.is_none() {
        return Err(unsupported("ids= is not a static list of strings"));
    }
    Ok(Some(CasesSpec { argnames, argvalues, value_ids, ids }))
}

fn parse_specs(
    decorators: &[PyExpr],
    resolver: Option<&ConstantResolver>,
    enclosing_class: Option<&str>,
) -> (r: Result<Vec<CasesSpec>, Obstacle>)
    ensures
        match r {
            Ok(specs) => specs_from(
                expr_views(decorators@),
                0,
                resolver_view(resolver),
                str_text(enclosing_class),
                seq![],
            ) == Ok::<Seq<SpecView>, ObstacleView>(spec_views(specs@)),
            Err(why) => specs_from(
                expr_views(decorators@),
                0,
                resolver_view(resolver),
                str_text(enclosing_class),
                seq![],
            ) == Err::<Seq<SpecView>, ObstacleView>(why@),
        },
{
    let ghost views = expr_views(decorators@);
    let ghost known = resolver_view(resolver);
    let ghost class = str_text(enclosing_class);
    let ghost whole = specs_from(views, 0, known, class, seq![]);
    let mut specs: Vec<CasesSpec> = Vec::new();
    assert(spec_views(specs@) =~= Seq::<SpecView>::empty());
    let mut i: usize = 0;
    while i < decorators.len()
        invariant
            i <= decorators@.len(),
            views == expr_views(decorators@),
            known == resolver_view(resolver),
            class == str_text(enclosing_class),
            whole == specs_from(views, 0, known, class, seq![]),
            whole == specs_from(views, i as int, known, class, spec_views(specs@)),
        decreases decorators@.len() - i,
    {
        assert(views[i as int] == decorators@[i as int]@);
        if let Some(spec) = parse_single_decorator(&decorators[i], resolver, enclosing_class)? {
            let ghost before = specs@;
            let ghost added = spec@;
            specs.push(spec);
            assert(spec_views(specs@) =~= spec_views(before).push(added));
        }
        i = i + 1;
    }
    Ok(specs)
}

/// Parse decorators into specs without expanding.
///
/// This is useful for caching method-level specs separately from class-level specs,
/// allowing proper combination during inheritance. The error is a module that has to be added to
/// the resolver first.
pub fn parse_decorators_to_specs(
    decorators: &[PyExpr],
    resolver: Option<&ConstantResolver>,
    enclosing_class: Option<&str>,
) -> (r: Result<MethodCasesInfo, Vec<String>>)
    ensures
        match r {
            Ok(info) => decorators_info(
                expr_views(decorators@),
                resolver_view(resolver),
                str_text(enclosing_class),
            ) == Ok::<InfoView, Seq<Seq<char>>>(info@),
            Err(module) => decorators_info(
                expr_views(decorators@),
                resolver_view(resolver),
                str_text(enclosing_class),
            ) == Err::<InfoView, Seq<Seq<char>>>(texts(module@)),
        },
{
    match parse_specs(decorators, resolver, enclosing_class) {
        Err(Obstacle::Needs(module)) => Err(module),
        Err(Obstacle::Cannot(reason)) => Ok(MethodCasesInfo::CannotExpand(reason)),
        Ok(specs) => if specs.len() == 0 {
            Ok(MethodCasesInfo::NotDecorated)
        } else {
            Ok(MethodCasesInfo::Specs(specs))
        },
    }
}

/// Parse decorators and return the cases expansion result.
///
/// If a `resolver` is provided, it will be used to resolve constant references
/// (like `Color.RED` or `CONFIG_VALUE`) to their literal values. The error is a module that has to
/// be added to the resolver first.
pub fn parse_decorators_for_cases(
    decorators: &[PyExpr],
    resolver: Option<&ConstantResolver>,
    enclosing_class: Option<&str>,
) -> (r: Result<CasesExpansion, Vec<String>>)
    ensures
        match r {
            Ok(expansion) => decorators_expansion(
                expr_views(decorators@),
                resolver_view(resolver),
                str_text(enclosing_class),
            ) == Ok::<ExpansionView, Seq<Seq<char>>>(expansion@),
            Err(module) => decorators_expansion(
                expr_views(decorators@),
                resolver_view(resolver),
                str_text(enclosing_class),
            ) == Err::<ExpansionView, Seq<Seq<char>>>(texts(module@)),
        },
{
    match parse_decorators_to_specs(decorators, resolver, enclosing_class) {
        Err(module) => Err(module),
        Ok(MethodCasesInfo::NotDecorated) => Ok(CasesExpansion::NotDecorated),
        Ok(MethodCasesInfo::CannotExpand(reason)) => Ok(CasesExpansion::CannotExpand(reason)),
        Ok(MethodCasesInfo::Specs(specs)) => Ok(
            CasesExpansion::Expanded(expand_cases(specs.as_slice())),
        ),
    }
}

} // verus!
