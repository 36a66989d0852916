//! Reading of Python source with the `ruff_python_parser` crate.

use crate::python_discovery::syntax::{
    alias_views, expr_views, keyword_views, stmt_views, AliasView, ClassDef, ClassView, ExprView,
    FunctionDef, FunctionView, KeywordView, PyAlias, PyExpr, PyKeyword, PyModule,
    PyNumber, PyStmt, StmtView,
};
use crate::strings::{copy, str_text, text_of};
use ruff_python_ast::Expr as RuffExpr;
use ruff_python_ast::Stmt as RuffStmt;
use ruff_python_ast::{Number, UnaryOp};
use vstd::prelude::*;
use vstd::utf8::encode_utf8;

verus! {

// ---------------------------------------------------------------------------------------------
// The nodes of the parser's tree
// ---------------------------------------------------------------------------------------------
/// An expression node of `ruff_python_ast`.
#[verifier::external_type_specification]
#[verifier::external_body]
pub struct ExRuffExpr(ruff_python_ast::Expr);

/// A keyword argument node of `ruff_python_ast`.
#[verifier::external_type_specification]
#[verifier::external_body]
pub struct ExRuffKeyword(ruff_python_ast::Keyword);

/// A decorator node of `ruff_python_ast`.
#[verifier::external_type_specification]
#[verifier::external_body]
pub struct ExRuffDecorator(ruff_python_ast::Decorator);

/// An import name node of `ruff_python_ast`.
#[verifier::external_type_specification]
#[verifier::external_body]
pub struct ExRuffAlias(ruff_python_ast::Alias);

/// A statement node of `ruff_python_ast`.
#[verifier::external_type_specification]
#[verifier::external_body]
pub struct ExRuffStmt(ruff_python_ast::Stmt);

/// What an expression node holds.
pub uninterp spec fn expr_syntax(e: ruff_python_ast::Expr) -> ExprView;

/// What a keyword argument node holds.
pub uninterp spec fn keyword_syntax(k: ruff_python_ast::Keyword) -> KeywordView;

/// What a decorator node holds: the expression behind the `@`.
pub uninterp spec fn decorator_syntax(d: ruff_python_ast::Decorator) -> ExprView;

/// What an import name node holds.
pub uninterp spec fn alias_syntax(a: ruff_python_ast::Alias) -> AliasView;

/// What a statement node holds.
pub uninterp spec fn stmt_syntax(s: ruff_python_ast::Stmt) -> StmtView;

/// What the parser makes of a source text: the statements of the module, or the error it
/// reports.
pub uninterp spec fn parsed_module(source: Seq<char>) -> Result<Seq<StmtView>, Seq<char>>;

pub open spec fn exprs_syntax(list: Seq<ruff_python_ast::Expr>) -> Seq<ExprView> {
    Seq::new(list.len(), |i: int| expr_syntax(list[i]))
}

pub open spec fn keywords_syntax(list: Seq<ruff_python_ast::Keyword>) -> Seq<KeywordView> {
    Seq::new(list.len(), |i: int| keyword_syntax(list[i]))
}

pub open spec fn decorators_syntax(list: Seq<ruff_python_ast::Decorator>) -> Seq<ExprView> {
    Seq::new(list.len(), |i: int| decorator_syntax(list[i]))
}

pub open spec fn aliases_syntax(list: Seq<ruff_python_ast::Alias>) -> Seq<AliasView> {
    Seq::new(list.len(), |i: int| alias_syntax(list[i]))
}

pub open spec fn stmts_syntax(list: Seq<ruff_python_ast::Stmt>) -> Seq<StmtView> {
    Seq::new(list.len(), |i: int| stmt_syntax(list[i]))
}

// ---------------------------------------------------------------------------------------------
// One level of the tree
// ---------------------------------------------------------------------------------------------
/// An expression node taken apart by one level; leaves are left to [`LeafShape`].
pub enum ExprShape<'a> {
    Name(&'a str),
    Attribute(&'a ruff_python_ast::Expr, &'a str),
    Call(
        &'a ruff_python_ast::Expr,
        &'a [ruff_python_ast::Expr],
        &'a [ruff_python_ast::Keyword],
    ),
    List(&'a [ruff_python_ast::Expr]),
    Tuple(&'a [ruff_python_ast::Expr]),
    Subscript(&'a ruff_python_ast::Expr),
    Unary(bool, &'a ruff_python_ast::Expr),
    Leaf,
}

/// An expression node without children, other than a number.
pub enum LeafShape<'a> {
    Text(&'a str),
    Boolean(bool),
    NoneLiteral,
    Comprehension,
    Other,
}

/// A function or class definition node taken apart by one level.
pub enum DefinitionShape<'a> {
    Function(&'a str, u32, &'a [ruff_python_ast::Decorator]),
    Class(
        &'a str,
        u32,
        &'a [ruff_python_ast::Decorator],
        Option<&'a [ruff_python_ast::Expr]>,
        &'a [ruff_python_ast::Stmt],
    ),
    NoDefinition,
}

/// A statement node, other than a definition, taken apart by one level.
pub enum SimpleShape<'a> {
    Assign(&'a [ruff_python_ast::Expr], &'a ruff_python_ast::Expr),
    AnnAssign(&'a ruff_python_ast::Expr, Option<&'a ruff_python_ast::Expr>),
    Import(&'a [ruff_python_ast::Alias]),
    ImportFrom(Option<&'a str>, &'a [ruff_python_ast::Alias], u32),
    Expr(&'a ruff_python_ast::Expr),
    Other,
}

/// The expressions without children.
pub open spec fn is_leaf(e: ExprView) -> bool {
    match e {
        ExprView::NumberLiteral(_) => true,
        ExprView::StringLiteral(_) => true,
        ExprView::BooleanLiteral(_) => true,
        ExprView::NoneLiteral => true,
        ExprView::Comprehension => true,
        ExprView::Other => true,
        _ => false,
    }
}

/// `shape` is the top level of `e`.
pub open spec fn is_top_of(shape: ExprShape, e: ExprView) -> bool {
    match shape {
        ExprShape::Name(id) => e == ExprView::Name(id@),
        ExprShape::Attribute(value, attr) => e == (ExprView::Attribute {
            value: Box::new(expr_syntax(*value)),
            attr: attr@,
        }),
        ExprShape::Call(func, args, keywords) => e == (ExprView::Call {
            func: Box::new(expr_syntax(*func)),
            args: exprs_syntax(args@),
            keywords: keywords_syntax(keywords@),
        }),
        ExprShape::List(elts) => e == ExprView::List(exprs_syntax(elts@)),
        ExprShape::Tuple(elts) => e == ExprView::Tuple(exprs_syntax(elts@)),
        ExprShape::Subscript(value) => e == (ExprView::Subscript {
            value: Box::new(expr_syntax(*value)),
        }),
        ExprShape::Unary(minus, operand) => e == (ExprView::UnaryOp {
            minus,
            operand: Box::new(expr_syntax(*operand)),
        }),
        ExprShape::Leaf => is_leaf(e),
    }
}

/// The expression that `shape` stands for.
pub open spec fn leaf_expr(shape: LeafShape) -> ExprView {
    match shape {
        LeafShape::Text(s) => ExprView::StringLiteral(s@),
        LeafShape::Boolean(b) => ExprView::BooleanLiteral(b),
        LeafShape::NoneLiteral => ExprView::NoneLiteral,
        LeafShape::Comprehension => ExprView::Comprehension,
        LeafShape::Other => ExprView::Other,
    }
}

/// `shape` is the top level of the statement `s`, if `s` is a definition.
pub open spec fn is_definition_of(shape: DefinitionShape, s: StmtView) -> bool {
    match shape {
        DefinitionShape::Function(name, offset, decorators) => s == StmtView::FunctionDef(
            FunctionView { name: name@, offset, decorators: decorators_syntax(decorators@) },
        ),
        DefinitionShape::Class(name, offset, decorators, bases, body) => s == StmtView::ClassDef(
            ClassView {
                name: name@,
                offset,
                decorators: decorators_syntax(decorators@),
                bases: match bases {
                    Some(list) => Some(exprs_syntax(list@)),
                    None => None,
                },
                body: stmts_syntax(body@),
            },
        ),
        DefinitionShape::NoDefinition => !(s is FunctionDef) && !(s is ClassDef),
    }
}

/// The statement that `shape` stands for.
pub open spec fn simple_stmt(shape: SimpleShape) -> StmtView {
    match shape {
        SimpleShape::Assign(targets, value) => StmtView::Assign {
            targets: exprs_syntax(targets@),
            value: expr_syntax(*value),
        },
        SimpleShape::AnnAssign(target, initial) => StmtView::AnnAssign {
            target: expr_syntax(*target),
            initial: match initial {
                Some(v) => Some(expr_syntax(*v)),
                None => None,
            },
        },
        SimpleShape::Import(names) => StmtView::Import { names: aliases_syntax(names@) },
        SimpleShape::ImportFrom(module, names, level) => StmtView::ImportFrom {
            module: match module {
                Some(m) => Some(m@),
                None => None,
            },
            names: aliases_syntax(names@),
            level,
        },
        SimpleShape::Expr(value) => StmtView::Expr(expr_syntax(*value)),
        SimpleShape::Other => StmtView::Other,
    }
}

/// `ruff_python_parser::parse_module` parses `source` as a module. The wrapper hands out the
/// statements of the module it returns, or the debug text of its `ParseError`; both depend on
/// the source text alone. The parser counts bytes with 32 bits, and panics where they do not do.
#[verifier::external_body]
fn parse_statements(source: &str) -> (r: Result<Vec<ruff_python_ast::Stmt>, String>)
    requires
        encode_utf8(source@).len() <= u32::MAX,
    ensures
        match r {
            Ok(body) => parsed_module(source@) == Ok::<Seq<StmtView>, Seq<char>>(
                stmts_syntax(body@),
            ),
            Err(message) => parsed_module(source@) == Err::<Seq<StmtView>, Seq<char>>(message@),
        },
{
    match ruff_python_parser::parse_module(source) {
        Ok(parsed) => Ok(parsed.into_syntax().body.into_iter().collect()),
        Err(error) => Err(format!("{:?}", error)),
    }
}

/// Takes a `ruff_python_ast::Expr` apart by one level. A unary operation is told from the others
/// by whether its operator is `USub`; every variant that is not named here is a leaf.
#[verifier::external_body]
fn expr_shape<'a>(e: &'a ruff_python_ast::Expr) -> (shape: ExprShape<'a>)
    ensures
        is_top_of(shape, expr_syntax(*e)),
{
    match e {
        RuffExpr::Name(n) => ExprShape::Name(n.id.as_str()),
        RuffExpr::Attribute(a) => ExprShape::Attribute(&a.value, a.attr.as_str()),
        RuffExpr::Call(c) => ExprShape::Call(&c.func, &c.arguments.args, &c.arguments.keywords),
        RuffExpr::List(l) => ExprShape::List(&l.elts),
        RuffExpr::Tuple(t) => ExprShape::Tuple(&t.elts),
        RuffExpr::Subscript(s) => ExprShape::Subscript(&s.value),
        RuffExpr::UnaryOp(u) => ExprShape::Unary(matches!(u.op, UnaryOp::USub), &u.operand),
        _ => ExprShape::Leaf,
    }
}

/// Reads the variant `NumberLiteral` of a `ruff_python_ast::Expr`: an integer by its value, where
/// that fits, and the text that `Display` gives it; a float by the text that `LowerExp` gives it, and
/// a complex number, whose real part is zero in a literal, so by its imaginary part.
#[verifier::external_body]
fn number_parts(e: &ruff_python_ast::Expr) -> (r: Option<PyNumber>)
    ensures
        match r {
            Some(number) => expr_syntax(*e) == ExprView::NumberLiteral(number@),
            None => !(expr_syntax(*e) is NumberLiteral),
        },
{
    match e {
        RuffExpr::NumberLiteral(literal) => Some(match &literal.value {
            Number::Int(i) => PyNumber::Int { small: i.as_i64(), text: i.to_string() },
            Number::Float(f) => PyNumber::Float { scientific: format!("{:e}", f) },
            Number::Complex { imag, .. } => {
                PyNumber::Complex { imaginary: format!("{:e}", imag) }
            },
        }),
        _ => None,
    }
}

/// Reads a `ruff_python_ast::Expr` without children that is no number: the text of a string literal
/// (its parts joined), a boolean, `None`, one of the four comprehension variants, or any other
/// variant.
#[verifier::external_body]
fn leaf_shape<'a>(e: &'a ruff_python_ast::Expr) -> (shape: LeafShape<'a>)
    requires
        is_leaf(expr_syntax(*e)),
        !(expr_syntax(*e) is NumberLiteral),
    ensures
        expr_syntax(*e) == leaf_expr(shape),
{
    match e {
        RuffExpr::StringLiteral(s) => LeafShape::Text(s.value.to_str()),
        RuffExpr::BooleanLiteral(b) => LeafShape::Boolean(b.value),
        RuffExpr::NoneLiteral(_) => LeafShape::NoneLiteral,
        RuffExpr::ListComp(_) => LeafShape::Comprehension,
        RuffExpr::SetComp(_) => LeafShape::Comprehension,
        RuffExpr::DictComp(_) => LeafShape::Comprehension,
        RuffExpr::Generator(_) => LeafShape::Comprehension,
        _ => LeafShape::Other,
    }
}

/// The name and the value of a `ruff_python_ast::Keyword`.
#[verifier::external_body]
fn keyword_parts<'a>(k: &'a ruff_python_ast::Keyword) -> (r: (
    Option<&'a str>,
    &'a ruff_python_ast::Expr,
))
    ensures
        keyword_syntax(*k) == (KeywordView { arg: str_text(r.0), value: expr_syntax(*r.1) }),
{
    (k.arg.as_ref().map(|arg| arg.as_str()), &k.value)
}

/// The expression of a `ruff_python_ast::Decorator`.
#[verifier::external_body]
fn decorator_expression(d: &ruff_python_ast::Decorator) -> (e: &ruff_python_ast::Expr)
    ensures
        decorator_syntax(*d) == expr_syntax(*e),
{
    &d.expression
}

/// The two names of a `ruff_python_ast::Alias`.
#[verifier::external_body]
fn alias_parts<'a>(a: &'a ruff_python_ast::Alias) -> (r: (&'a str, Option<&'a str>))
    ensures
        alias_syntax(*a) == (AliasView { name: r.0@, asname: str_text(r.1) }),
{
    (a.name.as_str(), a.asname.as_ref().map(|name| name.as_str()))
}

/// Takes a function or class definition of `ruff_python_ast::Stmt` apart by one level. The
/// offset is the start of the node's range; the bases are the positional arguments of a class.
#[verifier::external_body]
fn definition_shape<'a>(s: &'a ruff_python_ast::Stmt) -> (shape: DefinitionShape<'a>)
    ensures
        is_definition_of(shape, stmt_syntax(*s)),
{
    match s {
        RuffStmt::FunctionDef(f) => DefinitionShape::Function(
            f.name.as_str(),
            f.range.start().to_u32(),
            &f.decorator_list,
        ),
        RuffStmt::ClassDef(c) => DefinitionShape::Class(
            c.name.as_str(),
            c.range.start().to_u32(),
            &c.decorator_list,
            c.arguments.as_ref().map(|arguments| &*arguments.args),
            &c.body,
        ),
        _ => DefinitionShape::NoDefinition,
    }
}

/// Takes a `ruff_python_ast::Stmt` that is no definition apart by one level; every variant that
/// is not named here is some other statement.
#[verifier::external_body]
fn simple_shape<'a>(s: &'a ruff_python_ast::Stmt) -> (shape: SimpleShape<'a>)
    requires
        !(stmt_syntax(*s) is FunctionDef),
        !(stmt_syntax(*s) is ClassDef),
    ensures
        stmt_syntax(*s) == simple_stmt(shape),
{
    match s {
        RuffStmt::Assign(a) => SimpleShape::Assign(&a.targets, &a.value),
        RuffStmt::AnnAssign(a) => SimpleShape::AnnAssign(&a.target, a.value.as_deref()),
        RuffStmt::Import(i) => SimpleShape::Import(&i.names),
        RuffStmt::ImportFrom(i) => SimpleShape::ImportFrom(
            i.module.as_ref().map(|module| module.as_str()),
            &i.names,
            i.level,
        ),
        RuffStmt::Expr(e) => SimpleShape::Expr(&e.value),
        _ => SimpleShape::Other,
    }
}

// ---------------------------------------------------------------------------------------------
// Copies of whole trees
// ---------------------------------------------------------------------------------------------
fn copy_str(s: Option<&str>) -> (r: Option<String>)
    ensures
        text_of(r) == str_text(s),
{
    match s {
        Some(t) => Some(copy(t)),
        None => None,
    }
}

/// An expression is larger than each of its parts.
proof fn lemma_expr_children(e: ExprView)
    ensures
        match e {
            ExprView::Attribute { value, .. } => decreases_to!(e => *value),
            ExprView::Call { func, args, keywords } => decreases_to!(e => *func) && decreases_to!(
                e => args
            ) && decreases_to!(e => keywords),
            ExprView::List(elts) => decreases_to!(e => elts),
            ExprView::Tuple(elts) => decreases_to!(e => elts),
            ExprView::Subscript { value } => decreases_to!(e => *value),
            ExprView::UnaryOp { operand, .. } => decreases_to!(e => *operand),
            _ => true,
        },
{
    match e {
        ExprView::Attribute { .. } => {
            assert(decreases_to!(e => e->Attribute_value));
        },
        ExprView::Call { .. } => {
            assert(decreases_to!(e => e->func));
            assert(decreases_to!(e => e->args));
            assert(decreases_to!(e => e->keywords));
        },
        ExprView::List(_) => {
            assert(decreases_to!(e => e->List_0));
        },
        ExprView::Tuple(_) => {
            assert(decreases_to!(e => e->Tuple_0));
        },
        ExprView::Subscript { .. } => {
            assert(decreases_to!(e => e->Subscript_value));
        },
        ExprView::UnaryOp { .. } => {
            assert(decreases_to!(e => e->operand));
        },
        _ => {},
    }
}

fn read_expr(e: &ruff_python_ast::Expr) -> (r: PyExpr)
    ensures
        r@ == expr_syntax(*e),
    decreases expr_syntax(*e),
{
    let shape = expr_shape(e);
    proof {
        lemma_expr_children(expr_syntax(*e));
    }
    match shape {
        ExprShape::Name(id) => PyExpr::Name(copy(id)),
        ExprShape::Attribute(value, attr) => PyExpr::Attribute {
            value: Box::new(read_expr(value)),
            attr: copy(attr),
        },
        ExprShape::Call(func, args, keywords) => PyExpr::Call {
            func: Box::new(read_expr(func)),
            args: read_exprs(args),
            keywords: read_keywords(keywords),
        },
        ExprShape::List(elts) => PyExpr::List(read_exprs(elts)),
        ExprShape::Tuple(elts) => PyExpr::Tuple(read_exprs(elts)),
        ExprShape::Subscript(value) => PyExpr::Subscript { value: Box::new(read_expr(value)) },
        ExprShape::Unary(minus, operand) => PyExpr::UnaryOp {
            minus,
            operand: Box::new(read_expr(operand)),
        },
        ExprShape::Leaf => match number_parts(e) {
            Some(number) => PyExpr::NumberLiteral(number),
            None => match leaf_shape(e) {
                LeafShape::Text(s) => PyExpr::StringLiteral(copy(s)),
                LeafShape::Boolean(b) => PyExpr::BooleanLiteral(b),
                LeafShape::NoneLiteral => PyExpr::NoneLiteral,
                LeafShape::Comprehension => PyExpr::Comprehension,
                LeafShape::Other => PyExpr::Other,
            },
        },
    }
}

fn read_exprs(list: &[ruff_python_ast::Expr]) -> (r: Vec<PyExpr>)
    ensures
        expr_views(r@) == exprs_syntax(list@),
    decreases exprs_syntax(list@),
{
    let mut r: Vec<PyExpr> = Vec::new();
    let mut i: usize = 0;
    while i < list.len()
        invariant
            i <= list@.len(),
            r@.len() == i,
            forall|j: int| 0 <= j < i ==> (#[trigger] r@[j])@ == expr_syntax(list@[j]),
        decreases list@.len() - i,
    {
        assert(exprs_syntax(list@)[i as int] == expr_syntax(list@[i as int]));
        r.push(read_expr(&list[i]));
        i = i + 1;
    }
    assert(expr_views(r@) =~= exprs_syntax(list@));
    r
}

fn read_keywords(list: &[ruff_python_ast::Keyword]) -> (r: Vec<PyKeyword>)
    ensures
        keyword_views(r@) == keywords_syntax(list@),
    decreases keywords_syntax(list@),
{
    let mut r: Vec<PyKeyword> = Vec::new();
    let mut i: usize = 0;
    while i < list.len()
        invariant
            i <= list@.len(),
            r@.len() == i,
            forall|j: int| 0 <= j < i ==> (#[trigger] r@[j])@ == keyword_syntax(list@[j]),
        decreases list@.len() - i,
    {
        let (arg, value) = keyword_parts(&list[i]);
        assert(keywords_syntax(list@)[i as int] == keyword_syntax(list@[i as int]));
        assert(decreases_to!(
            keywords_syntax(list@)[i as int] => keywords_syntax(list@)[i as int].value
        ));
        r.push(PyKeyword { arg: copy_str(arg), value: read_expr(value) });
        i = i + 1;
    }
    assert(keyword_views(r@) =~= keywords_syntax(list@));
    r
}

fn read_decorators(list: &[ruff_python_ast::Decorator]) -> (r: Vec<PyExpr>)
    ensures
        expr_views(r@) == decorators_syntax(list@),
{
    let mut r: Vec<PyExpr> = Vec::new();
    let mut i: usize = 0;
    while i < list.len()
        invariant
            i <= list@.len(),
            r@.len() == i,
            forall|j: int| 0 <= j < i ==> (#[trigger] r@[j])@ == decorator_syntax(list@[j]),
        decreases list@.len() - i,
    {
        r.push(read_expr(decorator_expression(&list[i])));
        i = i + 1;
    }
    assert(expr_views(r@) =~= decorators_syntax(list@));
    r
}

fn read_aliases(list: &[ruff_python_ast::Alias]) -> (r: Vec<PyAlias>)
    ensures
        alias_views(r@) == aliases_syntax(list@),
{
    let mut r: Vec<PyAlias> = Vec::new();
    let mut i: usize = 0;
    while i < list.len()
        invariant
            i <= list@.len(),
            r@.len() == i,
            forall|j: int| 0 <= j < i ==> (#[trigger] r@[j])@ == alias_syntax(list@[j]),
        decreases list@.len() - i,
    {
        let (name, asname) = alias_parts(&list[i]);
        r.push(PyAlias { name: copy(name), asname: copy_str(asname) });
        i = i + 1;
    }
    assert(alias_views(r@) =~= aliases_syntax(list@));
    r
}

fn read_stmt(s: &ruff_python_ast::Stmt) -> (r: PyStmt)
    ensures
        r@ == stmt_syntax(*s),
    decreases stmt_syntax(*s),
{
    let shape = definition_shape(s);
    proof {
        if let StmtView::ClassDef(class) = stmt_syntax(*s) {
            assert(decreases_to!(stmt_syntax(*s) => stmt_syntax(*s)->ClassDef_0));
            assert(decreases_to!(class => class.body));
        }
    }
    match shape {
        DefinitionShape::Function(name, offset, decorators) => PyStmt::FunctionDef(
            FunctionDef { name: copy(name), offset, decorators: read_decorators(decorators) },
        ),
        DefinitionShape::Class(name, offset, decorators, bases, body) => PyStmt::ClassDef(
            ClassDef {
                name: copy(name),
                offset,
                decorators: read_decorators(decorators),
                bases: match bases {
                    Some(list) => Some(read_exprs(list)),
                    None => None,
                },
                body: read_stmts(body),
            },
        ),
        DefinitionShape::NoDefinition => match simple_shape(s) {
            SimpleShape::Assign(targets, value) => PyStmt::Assign {
                targets: read_exprs(targets),
                value: read_expr(value),
            },
            SimpleShape::AnnAssign(target, initial) => PyStmt::AnnAssign {
                target: read_expr(target),
                initial: match initial {
                    Some(v) => Some(read_expr(v)),
                    None => None,
                },
            },
            SimpleShape::Import(names) => PyStmt::Import { names: read_aliases(names) },
            SimpleShape::ImportFrom(module, names, level) => PyStmt::ImportFrom {
                module: copy_str(module),
                names: read_aliases(names),
                level,
            },
            SimpleShape::Expr(value) => PyStmt::Expr(read_expr(value)),
            SimpleShape::Other => PyStmt::Other,
        },
    }
}

fn read_stmts(list: &[ruff_python_ast::Stmt]) -> (r: Vec<PyStmt>)
    ensures
        stmt_views(r@) == stmts_syntax(list@),
    decreases stmts_syntax(list@),
{
    let mut r: Vec<PyStmt> = Vec::new();
    let mut i: usize = 0;
    while i < list.len()
        invariant
            i <= list@.len(),
            r@.len() == i,
            forall|j: int| 0 <= j < i ==> (#[trigger] r@[j])@ == stmt_syntax(list@[j]),
        decreases list@.len() - i,
    {
        assert(stmts_syntax(list@)[i as int] == stmt_syntax(list@[i as int]));
        r.push(read_stmt(&list[i]));
        i = i + 1;
    }
    assert(stmt_views(r@) =~= stmts_syntax(list@));
    r
}

/// The statements of a module, or why there are none: the parser's own description of what it met,
/// or that the text is too long for it.
pub open spec fn parse_result(source: Seq<char>) -> Result<Seq<StmtView>, Seq<char>> {
    if encode_utf8(source).len() > u32::MAX {
        Err("source is too long"@)
    } else {
        parsed_module(source)
    }
}

/// Parses `source` as a module. The error is the parser's own description of what it met; a text
/// that is too long for the parser is an error too.
pub fn parse(source: &str) -> (r: Result<PyModule, String>)
    ensures
        match r {
            Ok(module) => parse_result(source@) == Ok::<Seq<StmtView>, Seq<char>>(module@),
            Err(message) => parse_result(source@) == Err::<Seq<StmtView>, Seq<char>>(message@),
        },
{
    if source.as_bytes().len() > u32::MAX as usize {
        return Err(copy("source is too long"));
    }
    match parse_statements(source) {
        Ok(body) => Ok(PyModule { body: read_stmts(body.as_slice()) }),
        Err(message) => Err(message),
    }
}

} // verus!
