//! The syntax tree, and its mathematical view (names as character
//! sequences, children as sequences of views).
use crate::lex::Token;
use vstd::prelude::*;

verus! {

#[allow(inconsistent_fields)]
#[derive(Debug, PartialEq)]
pub enum Stmt {
    // Declarations
    VariableDeclaration { name: String, value: Option<Expr> },
    ConstDeclaration { name: String, value: Expr },
    FnDeclaration { name: String, params: Vec<String>, body: Box<Stmt> },
    // Not Declaration
    If { condition: Expr, then: Box<Stmt>, otherwise: Option<Box<Stmt>> },
    Loop { label: Option<String>, body: Box<Stmt> },
    Block(Vec<Stmt>),
    Comment(String),
    Expr(Expr),
}

#[derive(Debug, PartialEq)]
pub enum Expr {
    Binary { left: Box<Expr>, op: Token, right: Box<Expr> },
    Unary { op: Token, expr: Box<Expr> },
    Literal(Value),
    Grouping(Box<Expr>),
    Variable(String),
    Assignment(String, Box<Expr>),
}

/// A literal as written in the source. A number is kept as its decimal
/// numeral (digits, then at most one `.` and more digits), exactly.
#[derive(Debug, PartialEq)]
pub enum Value {
    Null,
    Bool(bool),
    Num(String),
    Str(String),
}

pub enum ValueView {
    Null,
    Bool(bool),
    Num(Seq<char>),
    Str(Seq<char>),
}

pub enum ExprView {
    Binary { left: Box<ExprView>, op: Token, right: Box<ExprView> },
    Unary { op: Token, expr: Box<ExprView> },
    Literal(ValueView),
    Grouping(Box<ExprView>),
    Variable(Seq<char>),
    Assignment(Seq<char>, Box<ExprView>),
}

#[allow(inconsistent_fields)]
pub enum StmtView {
    VariableDeclaration { name: Seq<char>, value: Option<ExprView> },
    ConstDeclaration { name: Seq<char>, value: ExprView },
    FnDeclaration { name: Seq<char>, params: Seq<Seq<char>>, body: Box<StmtView> },
    If { condition: ExprView, then: Box<StmtView>, otherwise: Option<Box<StmtView>> },
    Loop { label: Option<Seq<char>>, body: Box<StmtView> },
    Block(Seq<StmtView>),
    Comment(Seq<char>),
    Expr(ExprView),
}

impl View for Value {
    type V = ValueView;

    open spec fn view(&self) -> ValueView {
        match self {
            Value::Null => ValueView::Null,
            Value::Bool(b) => ValueView::Bool(*b),
            Value::Num(n) => ValueView::Num(n@),
            Value::Str(s) => ValueView::Str(s@),
        }
    }
}

pub open spec fn expr_view(e: Expr) -> ExprView
    decreases e,
{
    match e {
        Expr::Binary { left, op, right } => ExprView::Binary {
            left: Box::new(expr_view(*left)),
            op,
            right: Box::new(expr_view(*right)),
        },
        Expr::Unary { op, expr } => ExprView::Unary { op, expr: Box::new(expr_view(*expr)) },
        Expr::Literal(v) => ExprView::Literal(v@),
        Expr::Grouping(inner) => ExprView::Grouping(Box::new(expr_view(*inner))),
        Expr::Variable(name) => ExprView::Variable(name@),
        Expr::Assignment(name, value) => ExprView::Assignment(
            name@,
            Box::new(expr_view(*value)),
        ),
    }
}

impl View for Expr {
    type V = ExprView;

    open spec fn view(&self) -> ExprView {
        expr_view(*self)
    }
}

pub open spec fn stmt_view(s: Stmt) -> StmtView
    decreases s,
{
    match s {
        Stmt::VariableDeclaration { name, value } => StmtView::VariableDeclaration {
            name: name@,
            value: match value {
                Some(e) => Some(e@),
                None => None,
            },
        },
        Stmt::ConstDeclaration { name, value } => StmtView::ConstDeclaration {
            name: name@,
            value: value@,
        },
        Stmt::FnDeclaration { name, params, body } => StmtView::FnDeclaration {
            name: name@,
            params: params@.map_values(|p: String| p@),
            body: Box::new(stmt_view(*body)),
        },
        Stmt::If { condition, then, otherwise } => StmtView::If {
            condition: condition@,
            then: Box::new(stmt_view(*then)),
            otherwise: match otherwise {
                Some(b) => Some(Box::new(stmt_view(*b))),
                None => None,
            },
        },
        Stmt::Loop { label, body } => StmtView::Loop {
            label: match label {
                Some(l) => Some(l@),
                None => None,
            },
            body: Box::new(stmt_view(*body)),
        },
        Stmt::Block(stmts) => StmtView::Block(stmts_view(stmts@)),
        Stmt::Comment(text) => StmtView::Comment(text@),
        Stmt::Expr(e) => StmtView::Expr(e@),
    }
}

impl View for Stmt {
    type V = StmtView;

    open spec fn view(&self) -> StmtView {
        stmt_view(*self)
    }
}

/// The views of a sequence of statements, one for one.
pub open spec fn stmts_view(v: Seq<Stmt>) -> Seq<StmtView>
    decreases v,
{
    if v.len() == 0 {
        Seq::empty()
    } else {
        stmts_view(v.drop_last()).push(stmt_view(v.last()))
    }
}

} // verus!
