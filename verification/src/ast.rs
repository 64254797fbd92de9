//! The abstract syntax tree: expressions and statements.

use vstd::prelude::*;
use crate::value::{SpecValue, Value};

verus! {

/// A prefix operator.
#[derive(Clone, Copy, Debug, PartialEq, Eq, Structural)]
pub enum UnaryOp {
    Negate,
    Not,
}

/// An arithmetic, comparison or equality operator.
#[derive(Clone, Copy, Debug, PartialEq, Eq, Structural)]
pub enum BinaryOp {
    Add,
    Subtract,
    Multiply,
    Divide,
    Greater,
    GreaterEqual,
    Less,
    LessEqual,
    Equal,
    NotEqual,
}

/// A short-circuit operator.
#[derive(Clone, Copy, Debug, PartialEq, Eq, Structural)]
pub enum LogicalOp {
    And,
    Or,
}

/// An expression. `line` is the line of the operator or of the name, for
/// diagnostics.
#[derive(Debug, PartialEq, Eq)]
#[allow(inconsistent_fields)]
pub enum Expr {
    Literal(Value),
    Grouping(Box<Expr>),
    Unary { op: UnaryOp, line: u32, right: Box<Expr> },
    Binary { left: Box<Expr>, op: BinaryOp, line: u32, right: Box<Expr> },
    Logical { left: Box<Expr>, op: LogicalOp, right: Box<Expr> },
    Variable { name: String, line: u32 },
    Assign { name: String, line: u32, value: Box<Expr> },
}

/// The mathematical model of an `Expr`.
#[allow(inconsistent_fields)]
pub enum SpecExpr {
    Literal(SpecValue),
    Grouping(Box<SpecExpr>),
    Unary { op: UnaryOp, line: u32, right: Box<SpecExpr> },
    Binary { left: Box<SpecExpr>, op: BinaryOp, line: u32, right: Box<SpecExpr> },
    Logical { left: Box<SpecExpr>, op: LogicalOp, right: Box<SpecExpr> },
    Variable { name: Seq<char>, line: u32 },
    Assign { name: Seq<char>, line: u32, value: Box<SpecExpr> },
}

/// The model of an expression.
pub open spec fn expr_view(e: Expr) -> SpecExpr
    decreases e,
{
    match e {
        Expr::Literal(v) => SpecExpr::Literal(v@),
        Expr::Grouping(inner) => SpecExpr::Grouping(Box::new(expr_view(*inner))),
        Expr::Unary { op, line, right } => SpecExpr::Unary {
            op,
            line,
            right: Box::new(expr_view(*right)),
        },
        Expr::Binary { left, op, line, right } => SpecExpr::Binary {
            left: Box::new(expr_view(*left)),
            op,
            line,
            right: Box::new(expr_view(*right)),
        },
        Expr::Logical { left, op, right } => SpecExpr::Logical {
            left: Box::new(expr_view(*left)),
            op,
            right: Box::new(expr_view(*right)),
        },
        Expr::Variable { name, line } => SpecExpr::Variable { name: name@, line },
        Expr::Assign { name, line, value } => SpecExpr::Assign {
            name: name@,
            line,
            value: Box::new(expr_view(*value)),
        },
    }
}

impl View for Expr {
    type V = SpecExpr;

    open spec fn view(&self) -> SpecExpr {
        expr_view(*self)
    }
}

impl Clone for Expr {
    fn clone(&self) -> (r: Expr)
        ensures
            r == *self,
        decreases self,
    {
        match self {
            Expr::Literal(v) => Expr::Literal(v.clone()),
            Expr::Grouping(inner) => Expr::Grouping(Box::new((**inner).clone())),
            Expr::Unary { op, line, right } => Expr::Unary {
                op: *op,
                line: *line,
                right: Box::new((**right).clone()),
            },
            Expr::Binary { left, op, line, right } => Expr::Binary {
                left: Box::new((**left).clone()),
                op: *op,
                line: *line,
                right: Box::new((**right).clone()),
            },
            Expr::Logical { left, op, right } => Expr::Logical {
                left: Box::new((**left).clone()),
                op: *op,
                right: Box::new((**right).clone()),
            },
            Expr::Variable { name, line } => Expr::Variable { name: name.clone(), line: *line },
            Expr::Assign { name, line, value } => Expr::Assign {
                name: name.clone(),
                line: *line,
                value: Box::new((**value).clone()),
            },
        }
    }
}

/// A statement.
#[derive(Debug, PartialEq, Eq)]
pub enum Stmt {
    /// An expression evaluated for its effect.
    Expression(Expr),
    /// Prints the value of an expression.
    Print(Expr),
    /// Declares a variable in the current scope; without an initializer it
    /// holds `nil`.
    Var { name: String, initializer: Option<Expr> },
    /// Statements that run in a scope of their own.
    Block(Vec<Stmt>),
    /// A conditional.
    If { condition: Expr, then_branch: Box<Stmt>, else_branch: Option<Box<Stmt>> },
    /// A loop that runs while its condition is truthy. `line` is the line of
    /// its keyword.
    While { condition: Expr, body: Box<Stmt>, line: u32 },
}

/// The mathematical model of a `Stmt`.
pub enum SpecStmt {
    Expression(SpecExpr),
    Print(SpecExpr),
    Var { name: Seq<char>, initializer: Option<SpecExpr> },
    Block(Seq<SpecStmt>),
    If { condition: SpecExpr, then_branch: Box<SpecStmt>, else_branch: Option<Box<SpecStmt>> },
    While { condition: SpecExpr, body: Box<SpecStmt>, line: u32 },
}

/// The model of an optional expression.
pub open spec fn optional_expr_view(e: Option<Expr>) -> Option<SpecExpr> {
    match e {
        Some(e) => Some(e@),
        None => None,
    }
}

/// The model of a statement.
pub open spec fn stmt_view(s: Stmt) -> SpecStmt
    decreases s,
{
    match s {
        Stmt::Expression(e) => SpecStmt::Expression(e@),
        Stmt::Print(e) => SpecStmt::Print(e@),
        Stmt::Var { name, initializer } => SpecStmt::Var {
            name: name@,
            initializer: optional_expr_view(initializer),
        },
        Stmt::Block(items) => SpecStmt::Block(
            Seq::new(
                items@.len(),
                |i: int|
                    if 0 <= i < items@.len() {
                        stmt_view(items@[i])
                    } else {
                        SpecStmt::Block(Seq::empty())
                    },
            ),
        ),
        Stmt::If { condition, then_branch, else_branch } => SpecStmt::If {
            condition: condition@,
            then_branch: Box::new(stmt_view(*then_branch)),
            else_branch: match else_branch {
                Some(s) => Some(Box::new(stmt_view(*s))),
                None => None,
            },
        },
        Stmt::While { condition, body, line } => SpecStmt::While {
            condition: condition@,
            body: Box::new(stmt_view(*body)),
            line,
        },
    }
}

impl View for Stmt {
    type V = SpecStmt;

    open spec fn view(&self) -> SpecStmt {
        stmt_view(*self)
    }
}

/// The models of a sequence of statements.
pub open spec fn stmts_view(v: Seq<Stmt>) -> Seq<SpecStmt> {
    Seq::new(v.len(), |i: int| v[i]@)
}

/// A block is modelled by the models of its statements.
pub proof fn lemma_block_view(items: Vec<Stmt>)
    ensures
        Stmt::Block(items)@ == SpecStmt::Block(stmts_view(items@)),
{
    assert(Stmt::Block(items)@->Block_0 =~= stmts_view(items@));
}

} // verus!
