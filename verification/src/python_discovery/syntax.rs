//! The part of Python's syntax that test discovery reads.
//!
//! The parser is that of the `ruff_python_parser` crate. Its tree is read one node at a time and
//! copied into the plain types of this module; every contract of the discovery modules speaks of
//! the views of these types.

use crate::strings::text_of;
use vstd::prelude::*;

verus! {

// ---------------------------------------------------------------------------------------------
// Plain syntax trees
// ---------------------------------------------------------------------------------------------
/// A numeric literal.
#[derive(Debug)]
pub enum PyNumber {
    /// An integer: its value where it fits, and its text.
    Int { small: Option<i64>, text: String },
    /// A floating-point number: its shortest text in scientific notation.
    Float { scientific: String },
    /// An imaginary number: its shortest text in scientific notation.
    Complex { imaginary: String },
}

/// A keyword argument of a call; `**` arguments have no name.
#[derive(Debug)]
pub struct PyKeyword {
    pub arg: Option<String>,
    pub value: PyExpr,
}

/// An expression.
#[derive(Debug)]
pub enum PyExpr {
    Name(String),
    Attribute { value: Box<PyExpr>, attr: String },
    Call { func: Box<PyExpr>, args: Vec<PyExpr>, keywords: Vec<PyKeyword> },
    List(Vec<PyExpr>),
    Tuple(Vec<PyExpr>),
    /// `value[...]`; what stands in the brackets is never read.
    Subscript { value: Box<PyExpr> },
    /// A unary operation; `minus` tells arithmetic negation from the others.
    UnaryOp { minus: bool, operand: Box<PyExpr> },
    NumberLiteral(PyNumber),
    StringLiteral(String),
    BooleanLiteral(bool),
    NoneLiteral,
    /// A list, set or dict comprehension, or a generator expression.
    Comprehension,
    /// Any other expression.
    Other,
}

/// One name of an import statement.
#[derive(Debug)]
pub struct PyAlias {
    pub name: String,
    pub asname: Option<String>,
}

/// A function definition. `offset` is the position in the source at which it starts.
#[derive(Debug)]
pub struct FunctionDef {
    pub name: String,
    pub offset: u32,
    pub decorators: Vec<PyExpr>,
}

/// A class definition. `bases` is present where the class has an argument list.
#[derive(Debug)]
pub struct ClassDef {
    pub name: String,
    pub offset: u32,
    pub decorators: Vec<PyExpr>,
    pub bases: Option<Vec<PyExpr>>,
    pub body: Vec<PyStmt>,
}

/// A statement.
#[derive(Debug)]
pub enum PyStmt {
    FunctionDef(FunctionDef),
    ClassDef(ClassDef),
    Assign { targets: Vec<PyExpr>, value: PyExpr },
    AnnAssign { target: PyExpr, initial: Option<PyExpr> },
    Import { names: Vec<PyAlias> },
    ImportFrom { module: Option<String>, names: Vec<PyAlias>, level: u32 },
    Expr(PyExpr),
    /// Any other statement.
    Other,
}

/// A parsed source file.
#[derive(Debug)]
pub struct PyModule {
    pub body: Vec<PyStmt>,
}

// ---------------------------------------------------------------------------------------------
// Views
// ---------------------------------------------------------------------------------------------
/// View of a [`PyNumber`].
pub ghost enum NumberView {
    Int { small: Option<i64>, text: Seq<char> },
    Float { scientific: Seq<char> },
    Complex { imaginary: Seq<char> },
}

/// View of a [`PyKeyword`].
pub ghost struct KeywordView {
    pub arg: Option<Seq<char>>,
    pub value: ExprView,
}

/// View of an [`PyExpr`].
pub ghost enum ExprView {
    Name(Seq<char>),
    Attribute { value: Box<ExprView>, attr: Seq<char> },
    Call { func: Box<ExprView>, args: Seq<ExprView>, keywords: Seq<KeywordView> },
    List(Seq<ExprView>),
    Tuple(Seq<ExprView>),
    Subscript { value: Box<ExprView> },
    UnaryOp { minus: bool, operand: Box<ExprView> },
    NumberLiteral(NumberView),
    StringLiteral(Seq<char>),
    BooleanLiteral(bool),
    NoneLiteral,
    Comprehension,
    Other,
}

/// View of an [`PyAlias`].
pub ghost struct AliasView {
    pub name: Seq<char>,
    pub asname: Option<Seq<char>>,
}

/// View of a [`FunctionDef`].
pub ghost struct FunctionView {
    pub name: Seq<char>,
    pub offset: u32,
    pub decorators: Seq<ExprView>,
}

/// View of a [`ClassDef`].
pub ghost struct ClassView {
    pub name: Seq<char>,
    pub offset: u32,
    pub decorators: Seq<ExprView>,
    pub bases: Option<Seq<ExprView>>,
    pub body: Seq<StmtView>,
}

/// View of a [`PyStmt`].
pub ghost enum StmtView {
    FunctionDef(FunctionView),
    ClassDef(ClassView),
    Assign { targets: Seq<ExprView>, value: ExprView },
    AnnAssign { target: ExprView, initial: Option<ExprView> },
    Import { names: Seq<AliasView> },
    ImportFrom { module: Option<Seq<char>>, names: Seq<AliasView>, level: u32 },
    Expr(ExprView),
    Other,
}

impl PyNumber {
    pub open spec fn view(&self) -> NumberView {
        match self {
            PyNumber::Int { small, text } => NumberView::Int { small: *small, text: text@ },
            PyNumber::Float { scientific } => NumberView::Float { scientific: scientific@ },
            PyNumber::Complex { imaginary } => NumberView::Complex { imaginary: imaginary@ },
        }
    }
}

impl PyKeyword {
    pub open spec fn view(&self) -> KeywordView
        decreases self,
    {
        KeywordView { arg: text_of(self.arg), value: self.value.view() }
    }
}

impl PyExpr {
    pub open spec fn view(&self) -> ExprView
        decreases self,
    {
        match self {
            PyExpr::Name(id) => ExprView::Name(id@),
            PyExpr::Attribute { value, attr } => ExprView::Attribute {
                value: Box::new(value.view()),
                attr: attr@,
            },
            PyExpr::Call { func, args, keywords } => ExprView::Call {
                func: Box::new(func.view()),
                args: expr_views(args@),
                keywords: keyword_views(keywords@),
            },
            PyExpr::List(elts) => ExprView::List(expr_views(elts@)),
            PyExpr::Tuple(elts) => ExprView::Tuple(expr_views(elts@)),
            PyExpr::Subscript { value } => ExprView::Subscript { value: Box::new(value.view()) },
            PyExpr::UnaryOp { minus, operand } => ExprView::UnaryOp {
                minus: *minus,
                operand: Box::new(operand.view()),
            },
            PyExpr::NumberLiteral(number) => ExprView::NumberLiteral(number.view()),
            PyExpr::StringLiteral(s) => ExprView::StringLiteral(s@),
            PyExpr::BooleanLiteral(b) => ExprView::BooleanLiteral(*b),
            PyExpr::NoneLiteral => ExprView::NoneLiteral,
            PyExpr::Comprehension => ExprView::Comprehension,
            PyExpr::Other => ExprView::Other,
        }
    }
}

/// The views of a list of expressions.
pub open spec fn expr_views(list: Seq<PyExpr>) -> Seq<ExprView>
    decreases list,
{
    Seq::new(
        list.len(),
        |i: int|
            if 0 <= i < list.len() {
                list[i].view()
            } else {
                ExprView::Other
            },
    )
}

/// The views of a list of keyword arguments.
pub open spec fn keyword_views(list: Seq<PyKeyword>) -> Seq<KeywordView>
    decreases list,
{
    Seq::new(
        list.len(),
        |i: int|
            if 0 <= i < list.len() {
                list[i].view()
            } else {
                KeywordView { arg: None, value: ExprView::Other }
            },
    )
}

impl PyAlias {
    pub open spec fn view(&self) -> AliasView {
        AliasView { name: self.name@, asname: text_of(self.asname) }
    }
}

/// The views of a list of import names.
pub open spec fn alias_views(list: Seq<PyAlias>) -> Seq<AliasView> {
    Seq::new(list.len(), |i: int| list[i].view())
}

impl FunctionDef {
    pub open spec fn view(&self) -> FunctionView {
        FunctionView {
            name: self.name@,
            offset: self.offset,
            decorators: expr_views(self.decorators@),
        }
    }
}

impl ClassDef {
    pub open spec fn view(&self) -> ClassView
        decreases self,
    {
        ClassView {
            name: self.name@,
            offset: self.offset,
            decorators: expr_views(self.decorators@),
            bases: match self.bases {
                Some(list) => Some(expr_views(list@)),
                None => None,
            },
            body: stmt_views(self.body@),
        }
    }
}

impl PyStmt {
    pub open spec fn view(&self) -> StmtView
        decreases self,
    {
        match self {
            PyStmt::FunctionDef(def) => StmtView::FunctionDef(def.view()),
            PyStmt::ClassDef(def) => StmtView::ClassDef(def.view()),
            PyStmt::Assign { targets, value } => StmtView::Assign {
                targets: expr_views(targets@),
                value: value.view(),
            },
            PyStmt::AnnAssign { target, initial } => StmtView::AnnAssign {
                target: target.view(),
                initial: match initial {
                    Some(v) => Some(v.view()),
                    None => None,
                },
            },
            PyStmt::Import { names } => StmtView::Import { names: alias_views(names@) },
            PyStmt::ImportFrom { module, names, level } => StmtView::ImportFrom {
                module: text_of(*module),
                names: alias_views(names@),
                level: *level,
            },
            PyStmt::Expr(value) => StmtView::Expr(value.view()),
            PyStmt::Other => StmtView::Other,
        }
    }
}

/// The views of a list of statements.
pub open spec fn stmt_views(list: Seq<PyStmt>) -> Seq<StmtView>
    decreases list,
{
    Seq::new(
        list.len(),
        |i: int|
            if 0 <= i < list.len() {
                list[i].view()
            } else {
                StmtView::Other
            },
    )
}

impl PyModule {
    /// A module is seen as the list of its statements.
    pub open spec fn view(&self) -> Seq<StmtView> {
        stmt_views(self.body@)
    }
}

} // verus!
