//! Constants of one module: what its assignments and class bodies bind names to.

use crate::python_discovery::cases::{value_views, LiteralValue, ValueView};
use crate::python_discovery::numbers::{float_repr, float_text, integer_repr, integer_text};
use crate::python_discovery::syntax::{
    expr_views, stmt_views, ClassDef, ClassView, ExprView, NumberView, PyExpr, PyNumber, PyStmt,
    StmtView,
};
use crate::strings::{copy, same, texts};
use crate::table::{entry, insert, keys, names, place_of, with_entry};
use vstd::prelude::*;

verus! {

// ---------------------------------------------------------------------------------------------
// Expressions with a constant value
// ---------------------------------------------------------------------------------------------
/// The negative of `i`; the smallest number is its own negative.
pub open spec fn negated_int(i: i64) -> i64 {
    if i == i64::MIN {
        i
    } else {
        (-i) as i64
    }
}

/// The text of the negative of the floating-point number with text `text`.
pub open spec fn negated_text(text: Seq<char>) -> Seq<char> {
    if text.len() > 0 && text[0] == '-' {
        text.drop_first()
    } else {
        seq!['-'] + text
    }
}

/// The negative of a number; other values have none.
pub open spec fn negated(value: ValueView) -> Option<ValueView> {
    match value {
        ValueView::Int(i) => Some(ValueView::Int(negated_int(i))),
        ValueView::Float(text) => Some(ValueView::Float(negated_text(text))),
        _ => None,
    }
}

/// The negative of a number; other values have none.
pub fn negate(value: LiteralValue) -> (r: Option<LiteralValue>)
    ensures
        match r {
            Some(v) => negated(value@) == Some(v@),
            None => negated(value@) is None,
        },
{
    match value {
        LiteralValue::Int(i) => if i == i64::MIN {
            Some(LiteralValue::Int(i))
        } else {
            Some(LiteralValue::Int(-i))
        },
        LiteralValue::Float(text) => {
            let chars = crate::strings::chars_of(text.as_str());
            if chars.len() > 0 && chars[0] == '-' {
                let rest = crate::strings::string_of(chars.as_slice(), 1, chars.len());
                assert(rest@ =~= text@.drop_first());
                Some(LiteralValue::Float(rest))
            } else {
                Some(LiteralValue::Float(with_minus(text.as_str())))
            }
        },
        _ => None,
    }
}

/// The decimal digits of an integer literal that does not fit.
pub open spec fn large_integer(e: ExprView) -> Option<Seq<char>> {
    match e {
        ExprView::NumberLiteral(NumberView::Int { small: None, text }) => Some(integer_text(text)),
        _ => None,
    }
}

/// The decimal digits of an integer literal that does not fit.
pub fn large_integer_text(expr: &PyExpr) -> (r: Option<String>)
    ensures
        match r {
            Some(text) => large_integer(expr@) == Some(text@),
            None => large_integer(expr@) is None,
        },
{
    match expr {
        PyExpr::NumberLiteral(number) => match number {
            PyNumber::Int { small, text } => if small.is_none() {
                Some(integer_repr(text.as_str()))
            } else {
                None
            },
            _ => None,
        },
        _ => None,
    }
}

/// The text with a minus sign in front.
pub fn with_minus(text: &str) -> (r: String)
    ensures
        r@ == seq!['-'] + text@,
{
    let mut r = String::new();
    r.push('-');
    r.append(text);
    assert(r@ =~= seq!['-'] + text@);
    r
}

/// The value of an expression made of literals alone. An integer that does not fit is its text.
pub open spec fn literal_of(e: ExprView) -> Option<ValueView>
    decreases e, 0int,
{
    match e {
        ExprView::NumberLiteral(NumberView::Int { small, text }) => Some(
            match small {
                Some(i) => ValueView::Int(i),
                None => ValueView::Text(integer_text(text)),
            },
        ),
        ExprView::NumberLiteral(NumberView::Float { scientific }) => Some(
            ValueView::Float(float_text(scientific)),
        ),
        ExprView::UnaryOp { minus, operand } => if minus {
            match large_integer(*operand) {
                Some(text) => Some(ValueView::Text(seq!['-'] + text)),
                None => match literal_of(*operand) {
                    Some(value) => negated(value),
                    None => None,
                },
            }
        } else {
            None
        },
        ExprView::StringLiteral(s) => Some(ValueView::Text(s)),
        ExprView::BooleanLiteral(b) => Some(ValueView::Bool(b)),
        ExprView::NoneLiteral => Some(ValueView::NoneValue),
        ExprView::List(elts) => match literals_from(elts, 0, seq![]) {
            Some(values) => Some(ValueView::Sequence(values)),
            None => None,
        },
        ExprView::Tuple(elts) => match literals_from(elts, 0, seq![]) {
            Some(values) => Some(ValueView::Sequence(values)),
            None => None,
        },
        _ => None,
    }
}

/// `done` followed by the values of the expressions from `i` on, if each has one.
pub open spec fn literals_from(elts: Seq<ExprView>, i: int, done: Seq<ValueView>) -> Option<
    Seq<ValueView>,
>
    decreases elts, elts.len() - i,
{
    if i < 0 || i >= elts.len() {
        Some(done)
    } else {
        match literal_of(elts[i]) {
            Some(value) => literals_from(elts, i + 1, done.push(value)),
            None => None,
        }
    }
}

/// Try to extract a literal value from an expression.
///
/// This is intentionally limited to simple literals to avoid complexity.
pub fn try_extract_literal(expr: &PyExpr) -> (r: Option<LiteralValue>)
    ensures
        match r {
            Some(value) => literal_of(expr@) == Some(value@),
            None => literal_of(expr@) is None,
        },
    decreases expr@, 0int,
{
    match expr {
        PyExpr::NumberLiteral(number) => match number {
            PyNumber::Int { small, text } => match small {
                Some(i) => Some(LiteralValue::Int(*i)),
                None => Some(LiteralValue::String(integer_repr(text.as_str()))),
            },
            PyNumber::Float { scientific } => Some(
                LiteralValue::Float(float_repr(scientific.as_str())),
            ),
            PyNumber::Complex { .. } => None,
        },
        PyExpr::UnaryOp { minus, operand } => {
            if !*minus {
                return None;
            }
            if let Some(text) = large_integer_text(operand) {
                return Some(LiteralValue::String(with_minus(text.as_str())));
            }
            assert(decreases_to!(expr@ => expr@->operand));
            match try_extract_literal(operand) {
                Some(value) => negate(value),
                None => None,
            }
        },
        PyExpr::StringLiteral(s) => Some(LiteralValue::String(copy(s.as_str()))),
        PyExpr::BooleanLiteral(b) => Some(LiteralValue::Bool(*b)),
        PyExpr::NoneLiteral => Some(LiteralValue::NoneValue),
        PyExpr::List(elts) => {
            assert(decreases_to!(expr@ => expr@->List_0));
            match extract_literals(elts.as_slice()) {
                Some(values) => Some(LiteralValue::Sequence(values)),
                None => None,
            }
        },
        PyExpr::Tuple(elts) => {
            assert(decreases_to!(expr@ => expr@->Tuple_0));
            match extract_literals(elts.as_slice()) {
                Some(values) => Some(LiteralValue::Sequence(values)),
                None => None,
            }
        },
        _ => None,
    }
}

fn extract_literals(elts: &[PyExpr]) -> (r: Option<Vec<LiteralValue>>)
    ensures
        match r {
            Some(values) => literals_from(expr_views(elts@), 0, seq![]) == Some(
                value_views(values@),
            ),
            None => literals_from(expr_views(elts@), 0, seq![]) is None,
        },
    decreases expr_views(elts@), 1int,
{
    let ghost views = expr_views(elts@);
    let mut values: Vec<LiteralValue> = Vec::new();
    let mut i: usize = 0;
    assert(value_views(values@) =~= Seq::<ValueView>::empty());
    while i < elts.len()
        invariant
            i <= elts@.len(),
            views == expr_views(elts@),
            literals_from(views, 0, seq![]) == literals_from(
                views,
                i as int,
                value_views(values@),
            ),
        decreases elts@.len() - i,
    {
        assert(views[i as int] == elts@[i as int]@);
        assert(decreases_to!(views => views[i as int]));
        match try_extract_literal(&elts[i]) {
            Some(value) => {
                let ghost before = values@;
                let ghost v = value@;
                values.push(value);
                assert(value_views(values@) =~= value_views(before).push(v));
            },
            None => {
                return None;
            },
        }
        i = i + 1;
    }
    Some(values)
}

/// An attribute chain as a path: `a.b.c` is `["a", "b", "c"]`.
pub open spec fn path_of(e: ExprView) -> Option<Seq<Seq<char>>>
    decreases e,
{
    match e {
        ExprView::Name(id) => Some(seq![id]),
        ExprView::Attribute { value, attr } => match path_of(*value) {
            Some(path) => Some(path.push(attr)),
            None => None,
        },
        _ => None,
    }
}

/// Convert an attribute chain to a path: `a.b.c` -> `["a", "b", "c"]`.
pub fn expr_to_path(expr: &PyExpr) -> (r: Option<Vec<String>>)
    ensures
        match r {
            Some(path) => path_of(expr@) == Some(texts(path@)) && path@.len() > 0,
            None => path_of(expr@) is None,
        },
    decreases expr@,
{
    match expr {
        PyExpr::Name(id) => {
            let mut path: Vec<String> = Vec::new();
            path.push(copy(id.as_str()));
            assert(texts(path@) =~= seq![id@]);
            Some(path)
        },
        PyExpr::Attribute { value, attr } => {
            assert(decreases_to!(expr@ => expr@->Attribute_value));
            match expr_to_path(value) {
                Some(mut path) => {
                    let ghost before = path@;
                    path.push(copy(attr.as_str()));
                    assert(texts(path@) =~= texts(before).push(attr@));
                    Some(path)
                },
                None => None,
            }
        },
        _ => None,
    }
}

// ---------------------------------------------------------------------------------------------
// Scopes
// ---------------------------------------------------------------------------------------------
/// A list/tuple element that could not be folded on the first pass.
#[derive(Debug)]
pub enum PendingElement {
    Literal(LiteralValue),
    Path(Vec<String>),
}

/// View of a [`PendingElement`].
pub ghost enum PendingView {
    Literal(ValueView),
    Path(Seq<Seq<char>>),
}

impl PendingElement {
    pub open spec fn view(&self) -> PendingView {
        match self {
            PendingElement::Literal(value) => PendingView::Literal(value@),
            PendingElement::Path(path) => PendingView::Path(texts(path@)),
        }
    }
}

/// The views of a list of elements.
pub open spec fn element_views(list: Seq<PendingElement>) -> Seq<PendingView> {
    Seq::new(list.len(), |i: int| list[i].view())
}

/// A scope containing constants (module-level or class body).
///
/// Supports nested classes via recursive structure.
#[derive(Debug)]
pub struct ConstantScope {
    /// Direct constant assignments in this scope (e.g., `X = 42`).
    pub constants: Vec<(String, LiteralValue)>,
    /// Nested class scopes.
    pub children: Vec<(String, ConstantScope)>,
    /// Simple base class names (`class Foo(Bar)` gives `"Bar"`).
    pub bases: Vec<String>,
    /// True when this class inherits from `Enum` / `IntEnum` / `StrEnum` / `Flag`.
    pub is_enum: bool,
    /// Sequence assignments whose elements are literals or attribute paths,
    /// resolved after imported modules are loaded.
    pub pending_sequences: Vec<(String, Vec<PendingElement>)>,
}

/// View of a [`ConstantScope`].
pub ghost struct ScopeView {
    pub constants: Seq<(Seq<char>, ValueView)>,
    pub children: Seq<(Seq<char>, ScopeView)>,
    pub bases: Seq<Seq<char>>,
    pub is_enum: bool,
    pub pending: Seq<(Seq<char>, Seq<PendingView>)>,
}

pub open spec fn constant_views(list: Seq<(String, LiteralValue)>) -> Seq<(Seq<char>, ValueView)> {
    Seq::new(list.len(), |i: int| (list[i].0@, list[i].1@))
}

pub open spec fn pending_views(list: Seq<(String, Vec<PendingElement>)>) -> Seq<
    (Seq<char>, Seq<PendingView>),
> {
    Seq::new(list.len(), |i: int| (list[i].0@, element_views(list[i].1@)))
}

pub open spec fn scope_views(list: Seq<(String, ConstantScope)>) -> Seq<(Seq<char>, ScopeView)>
    decreases list,
{
    Seq::new(
        list.len(),
        |i: int|
            if 0 <= i < list.len() {
                (list[i].0@, list[i].1.view())
            } else {
                (seq![], empty_scope())
            },
    )
}

/// A scope in which nothing is bound.
pub open spec fn empty_scope() -> ScopeView {
    ScopeView {
        constants: seq![],
        children: seq![],
        bases: seq![],
        is_enum: false,
        pending: seq![],
    }
}

impl ConstantScope {
    pub open spec fn view(&self) -> ScopeView
        decreases self,
    {
        ScopeView {
            constants: constant_views(self.constants@),
            children: scope_views(self.children@),
            bases: texts(self.bases@),
            is_enum: self.is_enum,
            pending: pending_views(self.pending_sequences@),
        }
    }
}

/// The base classes from the `enum` module.
pub open spec fn names_enum(name: Seq<char>) -> bool {
    name == "Enum"@ || name == "IntEnum"@ || name == "StrEnum"@ || name == "Flag"@ || name
        == "IntFlag"@
}

pub fn is_enum_class_name(name: &str) -> (r: bool)
    ensures
        r == names_enum(name@),
{
    same(name, "Enum") || same(name, "IntEnum") || same(name, "StrEnum") || same(name, "Flag")
        || same(name, "IntFlag")
}

/// The simple name of a base class expression: `Bar` of `Bar` and of `Bar[T]`.
pub open spec fn simple_base(e: ExprView) -> Option<Seq<char>> {
    match e {
        ExprView::Name(id) => Some(id),
        ExprView::Subscript { value } => match *value {
            ExprView::Name(id) => Some(id),
            _ => None,
        },
        _ => None,
    }
}

/// The simple names of the base class expressions that have one.
pub open spec fn simple_bases(exprs: Seq<ExprView>) -> Seq<Seq<char>>
    decreases exprs.len(),
{
    if exprs.len() == 0 {
        seq![]
    } else {
        match simple_base(exprs.last()) {
            Some(name) => simple_bases(exprs.drop_last()).push(name),
            None => simple_bases(exprs.drop_last()),
        }
    }
}

/// The base class expressions of a class.
pub open spec fn base_exprs(class: ClassView) -> Seq<ExprView> {
    match class.bases {
        Some(exprs) => exprs,
        None => seq![],
    }
}

/// Some name in the list is that of a base class from the `enum` module.
pub open spec fn any_enum(list: Seq<Seq<char>>) -> bool {
    exists|i: int| 0 <= i < list.len() && names_enum(#[trigger] list[i])
}

pub fn class_base_simple_names(class_def: &ClassDef) -> (r: Vec<String>)
    ensures
        texts(r@) == simple_bases(base_exprs(class_def@)),
{
    let mut r: Vec<String> = Vec::new();
    assert(texts(r@) =~= Seq::<Seq<char>>::empty());
    match &class_def.bases {
        None => r,
        Some(exprs) => {
            let ghost views = expr_views(exprs@);
            let mut i: usize = 0;
            assert(views.take(0) =~= Seq::<ExprView>::empty());
            while i < exprs.len()
                invariant
                    i <= exprs@.len(),
                    views == expr_views(exprs@),
                    texts(r@) == simple_bases(views.take(i as int)),
                decreases exprs@.len() - i,
            {
                let ghost before = r@;
                assert(views.take(i + 1).drop_last() =~= views.take(i as int));
                assert(views.take(i + 1).last() == exprs@[i as int]@);
                match &exprs[i] {
                    PyExpr::Name(id) => {
                        r.push(copy(id.as_str()));
                        assert(texts(r@) =~= texts(before).push(id@));
                    },
                    PyExpr::Subscript { value } => {
                        assert(value@ is Name == (**value is Name));
                        if let PyExpr::Name(id) = &**value {
                            assert(value@ == ExprView::Name(id@));
                            r.push(copy(id.as_str()));
                            assert(texts(r@) =~= texts(before).push(id@));
                        }
                    },
                    _ => {},
                }
                i = i + 1;
            }
            assert(views.take(views.len() as int) =~= views);
            r
        },
    }
}

/// `done` followed by the elements from `i` on, if each is a literal or an attribute path.
pub open spec fn pending_from(elts: Seq<ExprView>, i: int, done: Seq<PendingView>) -> Option<
    Seq<PendingView>,
>
    decreases elts.len() - i,
{
    if i < 0 || i >= elts.len() {
        Some(done)
    } else {
        match literal_of(elts[i]) {
            Some(value) => pending_from(elts, i + 1, done.push(PendingView::Literal(value))),
            None => match path_of(elts[i]) {
                Some(path) => pending_from(elts, i + 1, done.push(PendingView::Path(path))),
                None => None,
            },
        }
    }
}

/// The elements of a list or tuple of literals and attribute paths.
pub open spec fn pending_of(e: ExprView) -> Option<Seq<PendingView>> {
    match e {
        ExprView::List(elts) => pending_from(elts, 0, seq![]),
        ExprView::Tuple(elts) => pending_from(elts, 0, seq![]),
        _ => None,
    }
}

pub fn try_pending_sequence(expr: &PyExpr) -> (r: Option<Vec<PendingElement>>)
    ensures
        match r {
            Some(elements) => pending_of(expr@) == Some(element_views(elements@)),
            None => pending_of(expr@) is None,
        },
{
    let elts: &Vec<PyExpr> = match expr {
        PyExpr::List(elts) => elts,
        PyExpr::Tuple(elts) => elts,
        _ => {
            return None;
        },
    };
    let ghost views = expr_views(elts@);
    let mut elements: Vec<PendingElement> = Vec::new();
    let mut i: usize = 0;
    assert(element_views(elements@) =~= Seq::<PendingView>::empty());
    while i < elts.len()
        invariant
            i <= elts@.len(),
            views == expr_views(elts@),
            pending_of(expr@) == pending_from(views, i as int, element_views(elements@)),
        decreases elts@.len() - i,
    {
        let ghost before = elements@;
        assert(views[i as int] == elts@[i as int]@);
        if let Some(value) = try_extract_literal(&elts[i]) {
            let ghost v = value@;
            elements.push(PendingElement::Literal(value));
            assert(element_views(elements@) =~= element_views(before).push(
                PendingView::Literal(v),
            ));
        } else if let Some(path) = expr_to_path(&elts[i]) {
            let ghost p = texts(path@);
            elements.push(PendingElement::Path(path));
            assert(element_views(elements@) =~= element_views(before).push(PendingView::Path(p)));
        } else {
            return None;
        }
        i = i + 1;
    }
    Some(elements)
}

/// The scope after `name = value`.
pub open spec fn recorded(scope: ScopeView, name: Seq<char>, value: ExprView) -> ScopeView {
    match literal_of(value) {
        Some(literal) => ScopeView {
            constants: with_entry(scope.constants, name, literal),
            ..scope
        },
        None => match pending_of(value) {
            Some(elements) => ScopeView { pending: scope.pending.push((name, elements)), ..scope },
            None => scope,
        },
    }
}

/// The scope of a class.
pub open spec fn class_scope(class: ClassView) -> ScopeView
    decreases class, 0int,
{
    let bases = simple_bases(base_exprs(class));
    ScopeView {
        bases,
        is_enum: any_enum(bases),
        ..scope_from(class.body, 0, empty_scope())
    }
}

/// The scope `done` after the statements from `i` on.
pub open spec fn scope_from(stmts: Seq<StmtView>, i: int, done: ScopeView) -> ScopeView
    decreases stmts, stmts.len() - i,
{
    if i < 0 || i >= stmts.len() {
        done
    } else {
        let next = match stmts[i] {
            StmtView::Assign { targets, value } => if targets.len() == 1 {
                match targets[0] {
                    ExprView::Name(id) => recorded(done, id, value),
                    _ => done,
                }
            } else {
                done
            },
            StmtView::AnnAssign { target, initial } => match (target, initial) {
                (ExprView::Name(id), Some(value)) => recorded(done, id, value),
                _ => done,
            },
            StmtView::ClassDef(class) => ScopeView {
                children: with_entry(done.children, class.name, class_scope(class)),
                ..done
            },
            _ => done,
        };
        scope_from(stmts, i + 1, next)
    }
}

/// The scope that a list of statements binds.
pub open spec fn scope_of(stmts: Seq<StmtView>) -> ScopeView {
    scope_from(stmts, 0, empty_scope())
}

pub proof fn lemma_names_are_keys(scope: ConstantScope)
    ensures
        names(scope.constants@) == keys(scope@.constants),
        names(scope.children@) == keys(scope@.children),
        names(scope.pending_sequences@) == keys(scope@.pending),
{
    assert(names(scope.constants@) =~= keys(scope@.constants));
    assert(names(scope.children@) =~= keys(scope@.children));
    assert(names(scope.pending_sequences@) =~= keys(scope@.pending));
}

pub fn record_assignment(scope: &mut ConstantScope, name: &str, value: &PyExpr)
    ensures
        final(scope)@ == recorded(old(scope)@, name@, value@),
{
    let ghost before = *scope;
    proof {
        lemma_names_are_keys(before);
    }
    if let Some(literal) = try_extract_literal(value) {
        let key = copy(name);
        let ghost v = literal@;
        insert(&mut scope.constants, key, literal);
        assert(scope@.constants =~= with_entry(before@.constants, name@, v));
        return;
    }
    if let Some(elements) = try_pending_sequence(value) {
        let ghost v = element_views(elements@);
        scope.pending_sequences.push((copy(name), elements));
        assert(scope@.pending =~= before@.pending.push((name@, v)));
    }
}

impl ConstantScope {
    /// A scope in which nothing is bound.
    pub fn new() -> (r: Self)
        ensures
            r@ == empty_scope(),
    {
        let r = ConstantScope {
            constants: Vec::new(),
            children: Vec::new(),
            bases: Vec::new(),
            is_enum: false,
            pending_sequences: Vec::new(),
        };
        assert(r@.constants =~= empty_scope().constants);
        assert(r@.children =~= empty_scope().children);
        assert(r@.bases =~= empty_scope().bases);
        assert(r@.pending =~= empty_scope().pending);
        r
    }

    /// Build a scope tree from a list of statements.
    pub fn from_statements(stmts: &[PyStmt]) -> (r: Self)
        ensures
            r@ == scope_of(stmt_views(stmts@)),
        decreases stmt_views(stmts@),
    {
        let ghost views = stmt_views(stmts@);
        let mut scope = ConstantScope::new();
        let mut i: usize = 0;
        while i < stmts.len()
            invariant
                i <= stmts@.len(),
                views == stmt_views(stmts@),
                scope_of(views) == scope_from(views, i as int, scope@),
            decreases stmts@.len() - i,
        {
            assert(views[i as int] == stmts@[i as int]@);
            match &stmts[i] {
                PyStmt::Assign { targets, value } => {
                    if targets.len() == 1 {
                        assert(expr_views(targets@)[0] == targets@[0]@);
                        if let PyExpr::Name(id) = &targets[0] {
                            record_assignment(&mut scope, id.as_str(), value);
                        }
                    }
                },
                PyStmt::AnnAssign { target, initial } => {
                    if let PyExpr::Name(id) = target {
                        if let Some(value) = initial {
                            record_assignment(&mut scope, id.as_str(), value);
                        }
                    }
                },
                PyStmt::ClassDef(class_def) => {
                    proof {
                        assert(decreases_to!(views => views[i as int]));
                        assert(decreases_to!(views[i as int] => views[i as int]->ClassDef_0));
                        assert(decreases_to!(class_def@ => class_def@.body));
                    }
                    let mut child = ConstantScope::from_statements(class_def.body.as_slice());
                    child.bases = class_base_simple_names(class_def);
                    child.is_enum = holds_enum(child.bases.as_slice());
                    let ghost before = scope;
                    let ghost c = child@;
                    assert(c == class_scope(class_def@));
                    proof {
                        lemma_names_are_keys(before);
                    }
                    insert(&mut scope.children, copy(class_def.name.as_str()), child);
                    assert(scope@.children =~= with_entry(
                        before@.children,
                        class_def.name@,
                        c,
                    ));
                },
                _ => {},
            }
            i = i + 1;
        }
        scope
    }
}

fn holds_enum(list: &[String]) -> (r: bool)
    ensures
        r == any_enum(texts(list@)),
{
    let mut i: usize = 0;
    while i < list.len()
        invariant
            i <= list@.len(),
            forall|j: int| 0 <= j < i ==> !names_enum((#[trigger] list@[j])@),
        decreases list@.len() - i,
    {
        if is_enum_class_name(list[i].as_str()) {
            assert(names_enum(texts(list@)[i as int]));
            return true;
        }
        i = i + 1;
    }
    assert forall|j: int| 0 <= j < texts(list@).len() implies !names_enum(
        #[trigger] texts(list@)[j],
    ) by {
        assert(!names_enum(list@[j]@));
    }
    false
}

// ---------------------------------------------------------------------------------------------
// Lookup in one scope
// ---------------------------------------------------------------------------------------------
/// The member `member` of the class `class`: its own, or the first that its base classes give.
/// The search goes up at most `fuel` levels of inheritance.
pub open spec fn class_member(
    scope: ScopeView,
    class: Seq<char>,
    member: Seq<char>,
    fuel: nat,
) -> Option<ValueView>
    decreases fuel, 0int, 0int,
{
    match entry(scope.children, class) {
        None => None,
        Some(found) => match entry(found.constants, member) {
            Some(value) => Some(value),
            None => if fuel == 0 {
                None
            } else {
                member_of_bases(scope, found.bases, 0, member, (fuel - 1) as nat)
            },
        },
    }
}

/// The first `member` that one of the classes from `i` on has.
pub open spec fn member_of_bases(
    scope: ScopeView,
    bases: Seq<Seq<char>>,
    i: int,
    member: Seq<char>,
    fuel: nat,
) -> Option<ValueView>
    decreases fuel, 1int, bases.len() - i,
{
    if i < 0 || i >= bases.len() {
        None
    } else if names_enum(bases[i]) {
        member_of_bases(scope, bases, i + 1, member, fuel)
    } else {
        match class_member(scope, bases[i], member, fuel) {
            Some(value) => Some(value),
            None => member_of_bases(scope, bases, i + 1, member, fuel),
        }
    }
}

/// The class is an enum: by its own bases, or by those of a class it inherits from.
pub open spec fn is_enum_class(scope: ScopeView, class: Seq<char>, fuel: nat) -> bool
    decreases fuel, 0int, 0int,
{
    match entry(scope.children, class) {
        None => false,
        Some(found) => found.is_enum || (fuel > 0 && any_enum_base(
            scope,
            found.bases,
            0,
            (fuel - 1) as nat,
        )),
    }
}

/// One of the classes from `i` on is an enum.
pub open spec fn any_enum_base(
    scope: ScopeView,
    bases: Seq<Seq<char>>,
    i: int,
    fuel: nat,
) -> bool
    decreases fuel, 1int, bases.len() - i,
{
    if i < 0 || i >= bases.len() {
        false
    } else if !names_enum(bases[i]) && is_enum_class(scope, bases[i], fuel) {
        true
    } else {
        any_enum_base(scope, bases, i + 1, fuel)
    }
}

/// The class that defines `member` for `class`, where that class derives from an enum base.
pub open spec fn enum_definer(
    scope: ScopeView,
    class: Seq<char>,
    member: Seq<char>,
    fuel: nat,
) -> Option<Seq<char>>
    decreases fuel, 0int, 0int,
{
    match entry(scope.children, class) {
        None => None,
        Some(found) => if entry(found.constants, member) is Some {
            if found.is_enum {
                Some(class)
            } else {
                None
            }
        } else if fuel == 0 {
            None
        } else {
            enum_definer_of_bases(scope, found.bases, 0, member, (fuel - 1) as nat)
        },
    }
}

/// The first defining enum class that one of the classes from `i` on gives.
pub open spec fn enum_definer_of_bases(
    scope: ScopeView,
    bases: Seq<Seq<char>>,
    i: int,
    member: Seq<char>,
    fuel: nat,
) -> Option<Seq<char>>
    decreases fuel, 1int, bases.len() - i,
{
    if i < 0 || i >= bases.len() {
        None
    } else if names_enum(bases[i]) {
        enum_definer_of_bases(scope, bases, i + 1, member, fuel)
    } else {
        match enum_definer(scope, bases[i], member, fuel) {
            Some(name) => Some(name),
            None => enum_definer_of_bases(scope, bases, i + 1, member, fuel),
        }
    }
}

/// The value at a path: a constant, a class member, or a member of a nested class.
pub open spec fn value_at(scope: ScopeView, path: Seq<Seq<char>>) -> Option<ValueView>
    decreases path.len(),
{
    if path.len() == 0 {
        None
    } else if path.len() == 1 {
        entry(scope.constants, path[0])
    } else {
        let inherited = if path.len() == 2 {
            class_member(scope, path[0], path[1], scope.children.len())
        } else {
            None
        };
        match inherited {
            Some(value) => Some(value),
            None => match entry(scope.children, path[0]) {
                Some(child) => value_at(child, path.drop_first()),
                None => None,
            },
        }
    }
}

/// The path is that of a member of an enum class, which may stand inside other classes.
pub open spec fn is_enum_at(scope: ScopeView, path: Seq<Seq<char>>) -> bool
    decreases path.len(),
{
    if path.len() < 2 {
        false
    } else if path.len() == 2 {
        is_enum_class(scope, path[0], scope.children.len()) || enum_definer(
            scope,
            path[0],
            path[1],
            scope.children.len(),
        ) is Some
    } else {
        match entry(scope.children, path[0]) {
            Some(child) => is_enum_at(child, path.drop_first()),
            None => false,
        }
    }
}

/// The scope with `value` under `name` in the class at `class_path`, if there is such a class.
pub open spec fn with_constant_at(
    scope: ScopeView,
    class_path: Seq<Seq<char>>,
    name: Seq<char>,
    value: ValueView,
) -> ScopeView
    decreases class_path.len(),
{
    if class_path.len() == 0 {
        ScopeView { constants: with_entry(scope.constants, name, value), ..scope }
    } else {
        match entry(scope.children, class_path[0]) {
            None => scope,
            Some(child) => ScopeView {
                children: with_entry(
                    scope.children,
                    class_path[0],
                    with_constant_at(child, class_path.drop_first(), name, value),
                ),
                ..scope
            },
        }
    }
}

/// The texts of a list of string slices.
pub open spec fn str_texts(list: Seq<&str>) -> Seq<Seq<char>> {
    Seq::new(list.len(), |i: int| list[i]@)
}

impl ConstantScope {
    /// The constant of that name.
    pub fn constant(&self, name: &str) -> (r: Option<&LiteralValue>)
        ensures
            match r {
                Some(value) => entry(self@.constants, name@) == Some(value@),
                None => entry(self@.constants, name@) is None,
            },
    {
        proof {
            lemma_names_are_keys(*self);
        }
        let at = place_of(self.constants.as_slice(), name);
        if at < self.constants.len() {
            Some(&self.constants[at].1)
        } else {
            None
        }
    }

    /// The nested class of that name.
    pub fn child(&self, name: &str) -> (r: Option<&ConstantScope>)
        ensures
            match r {
                Some(child) => entry(self@.children, name@) == Some(child@),
                None => entry(self@.children, name@) is None,
            },
    {
        proof {
            lemma_names_are_keys(*self);
        }
        let at = place_of(self.children.as_slice(), name);
        if at < self.children.len() {
            Some(&self.children[at].1)
        } else {
            None
        }
    }

    /// The elements of the first pending sequence of that name.
    pub fn pending(&self, name: &str) -> (r: Option<&Vec<PendingElement>>)
        ensures
            match r {
                Some(elements) => entry(self@.pending, name@) == Some(element_views(elements@)),
                None => entry(self@.pending, name@) is None,
            },
    {
        proof {
            lemma_names_are_keys(*self);
        }
        let at = place_of(self.pending_sequences.as_slice(), name);
        if at < self.pending_sequences.len() {
            Some(&self.pending_sequences[at].1)
        } else {
            None
        }
    }

    /// Resolve a path like `["Outer", "Inner", "X"]` to a value.
    pub fn resolve_path(&self, path: &[&str]) -> (r: Option<LiteralValue>)
        ensures
            match r {
                Some(value) => value_at(self@, str_texts(path@)) == Some(value@),
                None => value_at(self@, str_texts(path@)) is None,
            },
        decreases path@.len(),
    {
        if path.len() == 0 {
            return None;
        }
        if path.len() == 1 {
            return match self.constant(path[0]) {
                Some(value) => Some(value.copy()),
                None => None,
            };
        }
        if path.len() == 2 {
            if let Some(value) = self.lookup_class_member(path[0], path[1], self.children.len()) {
                return Some(value);
            }
        }
        match self.child(path[0]) {
            Some(child) => {
                let rest = vstd::slice::slice_subrange(path, 1, path.len());
                assert(str_texts(rest@) =~= str_texts(path@).drop_first());
                child.resolve_path(rest)
            },
            None => None,
        }
    }

    /// The member of a class, looked for up to `fuel` levels of inheritance.
    pub fn lookup_class_member(
        &self,
        class_name: &str,
        member: &str,
        fuel: usize,
    ) -> (r: Option<LiteralValue>)
        ensures
            match r {
                Some(value) => class_member(self@, class_name@, member@, fuel as nat) == Some(
                    value@,
                ),
                None => class_member(self@, class_name@, member@, fuel as nat) is None,
            },
        decreases fuel,
    {
        match self.child(class_name) {
            None => None,
            Some(class) => {
                if let Some(value) = class.constant(member) {
                    return Some(value.copy());
                }
                if fuel == 0 {
                    return None;
                }
                let mut i: usize = 0;
                while i < class.bases.len()
                    invariant
                        i <= class.bases@.len(),
                        fuel > 0,
                        class_member(self@, class_name@, member@, fuel as nat) == member_of_bases(
                            self@,
                            texts(class.bases@),
                            i as int,
                            member@,
                            (fuel - 1) as nat,
                        ),
                    decreases class.bases@.len() - i,
                {
                    let base = &class.bases[i];
                    assert(texts(class.bases@)[i as int] == base@);
                    if !is_enum_class_name(base.as_str()) {
                        if let Some(value) = self.lookup_class_member(
                            base.as_str(),
                            member,
                            fuel - 1,
                        ) {
                            return Some(value);
                        }
                    }
                    i = i + 1;
                }
                None
            },
        }
    }

    /// Whether a class is an enum, looked for up to `fuel` levels of inheritance.
    pub fn class_is_enum(&self, class_name: &str, fuel: usize) -> (r: bool)
        ensures
            r == is_enum_class(self@, class_name@, fuel as nat),
        decreases fuel,
    {
        match self.child(class_name) {
            None => false,
            Some(class) => {
                if class.is_enum {
                    return true;
                }
                if fuel == 0 {
                    return false;
                }
                let mut i: usize = 0;
                while i < class.bases.len()
                    invariant
                        i <= class.bases@.len(),
                        fuel > 0,
                        is_enum_class(self@, class_name@, fuel as nat) == any_enum_base(
                            self@,
                            texts(class.bases@),
                            i as int,
                            (fuel - 1) as nat,
                        ),
                    decreases class.bases@.len() - i,
                {
                    let base = &class.bases[i];
                    assert(texts(class.bases@)[i as int] == base@);
                    if !is_enum_class_name(base.as_str()) && self.class_is_enum(
                        base.as_str(),
                        fuel - 1,
                    ) {
                        return true;
                    }
                    i = i + 1;
                }
                false
            },
        }
    }
}

/// The enum class that defines a member, looked for up to `fuel` levels of inheritance.
pub fn defining_enum_class(
    scope: &ConstantScope,
    class_name: &str,
    member: &str,
    fuel: usize,
) -> (r: Option<String>)
    ensures
        match r {
            Some(name) => enum_definer(scope@, class_name@, member@, fuel as nat) == Some(name@),
            None => enum_definer(scope@, class_name@, member@, fuel as nat) is None,
        },
    decreases fuel,
{
    match scope.child(class_name) {
        None => None,
        Some(class) => {
            if class.constant(member).is_some() {
                return if class.is_enum {
                    Some(copy(class_name))
                } else {
                    None
                };
            }
            if fuel == 0 {
                return None;
            }
            let mut i: usize = 0;
            while i < class.bases.len()
                invariant
                    i <= class.bases@.len(),
                    fuel > 0,
                    enum_definer(scope@, class_name@, member@, fuel as nat)
                        == enum_definer_of_bases(
                        scope@,
                        texts(class.bases@),
                        i as int,
                        member@,
                        (fuel - 1) as nat,
                    ),
                decreases class.bases@.len() - i,
            {
                let base = &class.bases[i];
                assert(texts(class.bases@)[i as int] == base@);
                if !is_enum_class_name(base.as_str()) {
                    if let Some(name) = defining_enum_class(
                        scope,
                        base.as_str(),
                        member,
                        fuel - 1,
                    ) {
                        return Some(name);
                    }
                }
                i = i + 1;
            }
            None
        },
    }
}

/// Whether a path like `["Outer", "Color", "RED"]` is that of a member of an enum class.
pub fn is_enum_path(scope: &ConstantScope, path: &[&str]) -> (r: bool)
    ensures
        r == is_enum_at(scope@, str_texts(path@)),
    decreases path@.len(),
{
    if path.len() < 2 {
        return false;
    }
    if path.len() == 2 {
        let levels = scope.children.len();
        return scope.class_is_enum(path[0], levels) || defining_enum_class(
            scope,
            path[0],
            path[1],
            levels,
        ).is_some();
    }
    match scope.child(path[0]) {
        Some(child) => {
            let rest = vstd::slice::slice_subrange(path, 1, path.len());
            assert(str_texts(rest@) =~= str_texts(path@).drop_first());
            is_enum_path(child, rest)
        },
        None => false,
    }
}

/// Puts a constant into the class at `class_path`, if there is such a class.
pub fn insert_constant_at_class_path(
    scope: &mut ConstantScope,
    class_path: &[String],
    name: String,
    value: LiteralValue,
)
    ensures
        final(scope)@ == with_constant_at(old(scope)@, texts(class_path@), name@, value@),
    decreases class_path@.len(),
{
    let ghost before = *scope;
    proof {
        lemma_names_are_keys(before);
    }
    if class_path.len() == 0 {
        let ghost n = name@;
        let ghost v = value@;
        insert(&mut scope.constants, name, value);
        assert(scope@.constants =~= with_entry(before@.constants, n, v));
        return;
    }
    let at = place_of(scope.children.as_slice(), class_path[0].as_str());
    if at < scope.children.len() {
        let rest = vstd::slice::slice_subrange(class_path, 1, class_path.len());
        assert(texts(rest@) =~= texts(class_path@).drop_first());
        insert_constant_at_class_path(&mut scope.children[at].1, rest, name, value);
        assert(scope@.children =~= with_entry(
            before@.children,
            class_path@[0]@,
            with_constant_at(before.children@[at as int].1@, texts(rest@), name@, value@),
        ));
    }
}

/// A member of an enum class stands for itself, not for its value.
pub open spec fn as_member(value: ValueView, is_enum: bool, path: Seq<Seq<char>>) -> ValueView {
    if is_enum && path.len() >= 2 {
        ValueView::EnumMember {
            class_name: path[path.len() - 2],
            member_name: path[path.len() - 1],
        }
    } else {
        value
    }
}

pub fn wrap_enum_member(value: LiteralValue, is_enum: bool, path: &[String]) -> (r: LiteralValue)
    ensures
        r@ == as_member(value@, is_enum, texts(path@)),
{
    if is_enum && path.len() >= 2 {
        LiteralValue::EnumMember {
            class_name: copy(path[path.len() - 2].as_str()),
            member_name: copy(path[path.len() - 1].as_str()),
        }
    } else {
        value
    }
}

} // verus!
