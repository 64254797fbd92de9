//! The parser: tokens to statements, by recursive descent.
//!
//! A syntax error ends the statement it is in. The parser records it, skips
//! to the next statement boundary and goes on, so that one pass reports every
//! statement that is wrong.

use vstd::prelude::*;
use crate::ast::{
    lemma_block_view, stmts_view, BinaryOp, Expr, LogicalOp, SpecExpr, SpecStmt, Stmt, UnaryOp,
};
use crate::token::{tokens_view, Literal, SpecLiteral, SpecToken, Token, TokenKind};
use crate::value::{SpecValue, Value};

verus! {

/// What the parser wanted where it found something else.
#[derive(Clone, Copy, Debug, PartialEq, Eq, Structural)]
pub enum Expected {
    Expression,
    RightParen,
    SemicolonAfterValue,
    SemicolonAfterExpression,
    VariableName,
    SemicolonAfterDeclaration,
    RightBrace,
    LeftParenAfterIf,
    RightParenAfterIf,
    LeftParenAfterWhile,
    RightParenAfterWhile,
    AssignmentTarget,
}

/// The message for each kind of syntax error.
pub open spec fn message_text(what: Expected) -> Seq<char> {
    match what {
        Expected::Expression => "Expect expression."@,
        Expected::RightParen => "Expect ')' after expression."@,
        Expected::SemicolonAfterValue => "Expect ';' after value."@,
        Expected::SemicolonAfterExpression => "Expect ';' after expression."@,
        Expected::VariableName => "Expect variable name."@,
        Expected::SemicolonAfterDeclaration => "Expect ';' after variable declaration."@,
        Expected::RightBrace => "Expect '}' after block."@,
        Expected::LeftParenAfterIf => "Expect '(' after 'if'."@,
        Expected::RightParenAfterIf => "Expect ')' after if condition."@,
        Expected::LeftParenAfterWhile => "Expect '(' after 'while'."@,
        Expected::RightParenAfterWhile => "Expect ')' after condition."@,
        Expected::AssignmentTarget => "Invalid assignment target."@,
    }
}

/// The message for a kind of syntax error.
pub fn message(what: Expected) -> (s: String)
    ensures
        s@ == message_text(what),
{
    match what {
        Expected::Expression => String::from_str("Expect expression."),
        Expected::RightParen => String::from_str("Expect ')' after expression."),
        Expected::SemicolonAfterValue => String::from_str("Expect ';' after value."),
        Expected::SemicolonAfterExpression => String::from_str("Expect ';' after expression."),
        Expected::VariableName => String::from_str("Expect variable name."),
        Expected::SemicolonAfterDeclaration => String::from_str(
            "Expect ';' after variable declaration.",
        ),
        Expected::RightBrace => String::from_str("Expect '}' after block."),
        Expected::LeftParenAfterIf => String::from_str("Expect '(' after 'if'."),
        Expected::RightParenAfterIf => String::from_str("Expect ')' after if condition."),
        Expected::LeftParenAfterWhile => String::from_str("Expect '(' after 'while'."),
        Expected::RightParenAfterWhile => String::from_str("Expect ')' after condition."),
        Expected::AssignmentTarget => String::from_str("Invalid assignment target."),
    }
}

/// A syntax error: the token that was not expected, or none at the end of the
/// input, and a message.
#[derive(Debug, PartialEq, Eq)]
pub struct ParseError {
    pub token: Option<Token>,
    pub message: String,
}

/// The mathematical model of a `ParseError`.
pub struct SpecParseError {
    pub token: Option<SpecToken>,
    pub message: Seq<char>,
}

impl View for ParseError {
    type V = SpecParseError;

    open spec fn view(&self) -> SpecParseError {
        SpecParseError {
            token: match self.token {
                Some(t) => Some(t@),
                None => None,
            },
            message: self.message@,
        }
    }
}

/// The models of a sequence of syntax errors.
pub open spec fn errors_view(v: Seq<ParseError>) -> Seq<SpecParseError> {
    Seq::new(v.len(), |i: int| v[i]@)
}

/// Where a rule failed and what it wanted there.
#[derive(Clone, Copy, Debug, PartialEq, Eq, Structural)]
pub struct Failure {
    pub what: Expected,
    pub position: usize,
}

/// The mathematical model of a `Failure`.
pub struct SpecFailure {
    pub what: Expected,
    pub position: nat,
}

impl View for Failure {
    type V = SpecFailure;

    open spec fn view(&self) -> SpecFailure {
        SpecFailure { what: self.what, position: self.position as nat }
    }
}

/// An infix operator.
#[derive(Clone, Copy, Debug, PartialEq, Eq, Structural)]
pub enum Infix {
    Logical(LogicalOp),
    Binary(BinaryOp),
}

/// The kind of the token at `pos`; `Eof` beyond the last token.
pub open spec fn kind_at(ts: Seq<SpecToken>, pos: nat) -> TokenKind {
    if pos < ts.len() {
        ts[pos as int].kind
    } else {
        TokenKind::Eof
    }
}

/// The line of the token at `pos`; zero beyond the last token.
pub open spec fn line_at(ts: Seq<SpecToken>, pos: nat) -> u32 {
    if pos < ts.len() {
        ts[pos as int].line
    } else {
        0
    }
}

/// The text that the token at `pos` carries, if it carries text.
pub open spec fn text_at(ts: Seq<SpecToken>, pos: nat) -> Option<Seq<char>> {
    if pos < ts.len() {
        match ts[pos as int].literal {
            Some(SpecLiteral::Text(s)) => Some(s),
            _ => None,
        }
    } else {
        None
    }
}

/// The number that the token at `pos` carries, if it carries one.
pub open spec fn number_at(ts: Seq<SpecToken>, pos: nat) -> Option<crate::number::Number> {
    if pos < ts.len() {
        match ts[pos as int].literal {
            Some(SpecLiteral::Number(n)) => Some(n),
            _ => None,
        }
    } else {
        None
    }
}

/// How many tokens are left from `pos` on.
pub open spec fn remaining(ts: Seq<SpecToken>, pos: nat) -> nat {
    if pos < ts.len() {
        (ts.len() - pos) as nat
    } else {
        0
    }
}

/// The infix operator that a token of kind `kind` is at binding level
/// `level`. Level 0 binds loosest: `or`; then `and`; equality; comparison;
/// sum and difference; level 5, product and quotient, binds tightest.
pub open spec fn infix_at(kind: TokenKind, level: nat) -> Option<Infix> {
    if level == 0 && kind == TokenKind::Or {
        Some(Infix::Logical(LogicalOp::Or))
    } else if level == 1 && kind == TokenKind::And {
        Some(Infix::Logical(LogicalOp::And))
    } else if level == 2 && kind == TokenKind::BangEqual {
        Some(Infix::Binary(BinaryOp::NotEqual))
    } else if level == 2 && kind == TokenKind::EqualEqual {
        Some(Infix::Binary(BinaryOp::Equal))
    } else if level == 3 && kind == TokenKind::Greater {
        Some(Infix::Binary(BinaryOp::Greater))
    } else if level == 3 && kind == TokenKind::GreaterEqual {
        Some(Infix::Binary(BinaryOp::GreaterEqual))
    } else if level == 3 && kind == TokenKind::Less {
        Some(Infix::Binary(BinaryOp::Less))
    } else if level == 3 && kind == TokenKind::LessEqual {
        Some(Infix::Binary(BinaryOp::LessEqual))
    } else if level == 4 && kind == TokenKind::Minus {
        Some(Infix::Binary(BinaryOp::Subtract))
    } else if level == 4 && kind == TokenKind::Plus {
        Some(Infix::Binary(BinaryOp::Add))
    } else if level == 5 && kind == TokenKind::Slash {
        Some(Infix::Binary(BinaryOp::Divide))
    } else if level == 5 && kind == TokenKind::Star {
        Some(Infix::Binary(BinaryOp::Multiply))
    } else {
        None
    }
}

/// The expression `left op right`, with the operator on line `line`.
pub open spec fn combine(left: SpecExpr, op: Infix, line: u32, right: SpecExpr) -> SpecExpr {
    match op {
        Infix::Logical(op) => SpecExpr::Logical { left: Box::new(left), op, right: Box::new(right) },
        Infix::Binary(op) => SpecExpr::Binary {
            left: Box::new(left),
            op,
            line,
            right: Box::new(right),
        },
    }
}

/// The measure that orders the binding levels among the rules.
pub open spec fn level_rank(level: nat) -> nat {
    if level >= 6 {
        3
    } else {
        (2 * (6 - level) + 3) as nat
    }
}

/// `primary -> NUMBER | STRING | "true" | "false" | "nil" | IDENTIFIER
///           | "(" expression ")"`.
///
/// On success every rule gives what it parsed and how many tokens it took.
pub open spec fn primary_at(ts: Seq<SpecToken>, pos: nat) -> Result<(SpecExpr, nat), SpecFailure>
    decreases remaining(ts, pos), 0nat,
{
    let kind = kind_at(ts, pos);
    let unexpected = Err(SpecFailure { what: Expected::Expression, position: pos });
    if kind == TokenKind::False {
        Ok((SpecExpr::Literal(SpecValue::Bool(false)), 1))
    } else if kind == TokenKind::True {
        Ok((SpecExpr::Literal(SpecValue::Bool(true)), 1))
    } else if kind == TokenKind::Nil {
        Ok((SpecExpr::Literal(SpecValue::Nil), 1))
    } else if kind == TokenKind::Number {
        match number_at(ts, pos) {
            Some(n) => Ok((SpecExpr::Literal(SpecValue::Number(n)), 1)),
            None => unexpected,
        }
    } else if kind == TokenKind::Str {
        match text_at(ts, pos) {
            Some(s) => Ok((SpecExpr::Literal(SpecValue::Str(s)), 1)),
            None => unexpected,
        }
    } else if kind == TokenKind::Identifier {
        match text_at(ts, pos) {
            Some(name) => Ok((SpecExpr::Variable { name, line: line_at(ts, pos) }, 1)),
            None => unexpected,
        }
    } else if kind == TokenKind::LeftParen {
        match expression_at(ts, pos + 1) {
            Err(f) => Err(f),
            Ok((inner, n)) => if kind_at(ts, pos + 1 + n) == TokenKind::RightParen {
                Ok((SpecExpr::Grouping(Box::new(inner)), n + 2))
            } else {
                Err(SpecFailure { what: Expected::RightParen, position: pos + 1 + n })
            },
        }
    } else {
        unexpected
    }
}

/// `unary -> ( "!" | "-" ) unary | primary`.
pub open spec fn unary_at(ts: Seq<SpecToken>, pos: nat) -> Result<(SpecExpr, nat), SpecFailure>
    decreases remaining(ts, pos), 1nat,
{
    let kind = kind_at(ts, pos);
    if kind == TokenKind::Bang || kind == TokenKind::Minus {
        let op = if kind == TokenKind::Bang {
            UnaryOp::Not
        } else {
            UnaryOp::Negate
        };
        match unary_at(ts, pos + 1) {
            Err(f) => Err(f),
            Ok((right, n)) => Ok(
                (SpecExpr::Unary { op, line: line_at(ts, pos), right: Box::new(right) }, n + 1),
            ),
        }
    } else {
        primary_at(ts, pos)
    }
}

/// The rule for the infix operators of `level`: an operand of the next
/// tighter level, then any number of operators of this level, each with
/// another such operand, grouped from the left.
pub open spec fn level_at(ts: Seq<SpecToken>, pos: nat, level: nat) -> Result<
    (SpecExpr, nat),
    SpecFailure,
>
    decreases remaining(ts, pos), level_rank(level),
{
    if level >= 6 {
        unary_at(ts, pos)
    } else {
        match level_at(ts, pos, level + 1) {
            Err(f) => Err(f),
            Ok((left, n)) => match level_rest_at(ts, pos + n, level, left) {
                Err(f) => Err(f),
                Ok((e, m)) => Ok((e, n + m)),
            },
        }
    }
}

/// What follows the operand `left` at `level`: the operators from `pos` on
/// and their operands.
pub open spec fn level_rest_at(ts: Seq<SpecToken>, pos: nat, level: nat, left: SpecExpr) -> Result<
    (SpecExpr, nat),
    SpecFailure,
>
    decreases remaining(ts, pos), (level_rank(level) - 1) as nat,
{
    match infix_at(kind_at(ts, pos), level) {
        None => Ok((left, 0)),
        Some(op) => match level_at(ts, pos + 1, level + 1) {
            Err(f) => Err(f),
            Ok((right, n)) => match level_rest_at(
                ts,
                pos + 1 + n,
                level,
                combine(left, op, line_at(ts, pos), right),
            ) {
                Err(f) => Err(f),
                Ok((e, m)) => Ok((e, 1 + n + m)),
            },
        },
    }
}

/// `expression -> IDENTIFIER "=" expression | logic_or`. What stands left of
/// `=` is parsed as an expression; anything but a variable is an invalid
/// assignment target, reported at the `=`.
pub open spec fn expression_at(ts: Seq<SpecToken>, pos: nat) -> Result<(SpecExpr, nat), SpecFailure>
    decreases remaining(ts, pos), 20nat,
{
    match level_at(ts, pos, 0) {
        Err(f) => Err(f),
        Ok((left, n)) => if kind_at(ts, pos + n) == TokenKind::Equal {
            match expression_at(ts, pos + n + 1) {
                Err(f) => Err(f),
                Ok((value, m)) => match left {
                    SpecExpr::Variable { name, line } => Ok(
                        (SpecExpr::Assign { name, line, value: Box::new(value) }, n + 1 + m),
                    ),
                    _ => Err(SpecFailure { what: Expected::AssignmentTarget, position: pos + n }),
                },
            }
        } else {
            Ok((left, n))
        },
    }
}

/// `"(" expression ")"` after a keyword: the condition of `if` and `while`.
/// It gives the condition and the tokens taken, parentheses included.
pub open spec fn condition_at(
    ts: Seq<SpecToken>,
    pos: nat,
    open: Expected,
    close: Expected,
) -> Result<(SpecExpr, nat), SpecFailure>
    decreases remaining(ts, pos), 21nat,
{
    if kind_at(ts, pos) != TokenKind::LeftParen {
        Err(SpecFailure { what: open, position: pos })
    } else {
        match expression_at(ts, pos + 1) {
            Err(f) => Err(f),
            Ok((condition, n)) => if kind_at(ts, pos + 1 + n) == TokenKind::RightParen {
                Ok((condition, n + 2))
            } else {
                Err(SpecFailure { what: close, position: pos + 1 + n })
            },
        }
    }
}

/// `statement -> "print" expression ";" | "{" declaration* "}"
///             | "if" "(" expression ")" statement ( "else" statement )?
///             | "while" "(" expression ")" statement | expression ";"`.
pub open spec fn statement_at(ts: Seq<SpecToken>, pos: nat) -> Result<(SpecStmt, nat), SpecFailure>
    decreases remaining(ts, pos), 30nat,
{
    let kind = kind_at(ts, pos);
    if kind == TokenKind::Print {
        match expression_at(ts, pos + 1) {
            Err(f) => Err(f),
            Ok((e, n)) => if kind_at(ts, pos + 1 + n) == TokenKind::Semicolon {
                Ok((SpecStmt::Print(e), n + 2))
            } else {
                Err(SpecFailure { what: Expected::SemicolonAfterValue, position: pos + 1 + n })
            },
        }
    } else if kind == TokenKind::LeftBrace {
        match block_items_at(ts, pos + 1) {
            Err(f) => Err(f),
            Ok((items, n)) => Ok((SpecStmt::Block(items), n + 1)),
        }
    } else if kind == TokenKind::If {
        match condition_at(
            ts,
            pos + 1,
            Expected::LeftParenAfterIf,
            Expected::RightParenAfterIf,
        ) {
            Err(f) => Err(f),
            Ok((condition, n)) => match statement_at(ts, pos + 1 + n) {
                Err(f) => Err(f),
                Ok((then_branch, m)) => if kind_at(ts, pos + 1 + n + m) == TokenKind::Else {
                    match statement_at(ts, pos + 2 + n + m) {
                        Err(f) => Err(f),
                        Ok((else_branch, k)) => Ok(
                            (
                                SpecStmt::If {
                                    condition,
                                    then_branch: Box::new(then_branch),
                                    else_branch: Some(Box::new(else_branch)),
                                },
                                2 + n + m + k,
                            ),
                        ),
                    }
                } else {
                    Ok(
                        (
                            SpecStmt::If {
                                condition,
                                then_branch: Box::new(then_branch),
                                else_branch: None,
                            },
                            1 + n + m,
                        ),
                    )
                },
            },
        }
    } else if kind == TokenKind::While {
        match condition_at(
            ts,
            pos + 1,
            Expected::LeftParenAfterWhile,
            Expected::RightParenAfterWhile,
        ) {
            Err(f) => Err(f),
            Ok((condition, n)) => match statement_at(ts, pos + 1 + n) {
                Err(f) => Err(f),
                Ok((body, m)) => Ok(
                    (
                        SpecStmt::While { condition, body: Box::new(body), line: line_at(ts, pos) },
                        1 + n + m,
                    ),
                ),
            },
        }
    } else {
        match expression_at(ts, pos) {
            Err(f) => Err(f),
            Ok((e, n)) => if kind_at(ts, pos + n) == TokenKind::Semicolon {
                Ok((SpecStmt::Expression(e), n + 1))
            } else {
                Err(SpecFailure { what: Expected::SemicolonAfterExpression, position: pos + n })
            },
        }
    }
}

/// `declaration -> "var" IDENTIFIER ( "=" expression )? ";" | statement`.
pub open spec fn declaration_at(ts: Seq<SpecToken>, pos: nat) -> Result<
    (SpecStmt, nat),
    SpecFailure,
>
    decreases remaining(ts, pos), 31nat,
{
    if kind_at(ts, pos) == TokenKind::Var {
        if kind_at(ts, pos + 1) == TokenKind::Identifier && text_at(ts, pos + 1) is Some {
            let name = text_at(ts, pos + 1)->0;
            if kind_at(ts, pos + 2) == TokenKind::Equal {
                match expression_at(ts, pos + 3) {
                    Err(f) => Err(f),
                    Ok((e, n)) => if kind_at(ts, pos + 3 + n) == TokenKind::Semicolon {
                        Ok((SpecStmt::Var { name, initializer: Some(e) }, n + 4))
                    } else {
                        Err(
                            SpecFailure {
                                what: Expected::SemicolonAfterDeclaration,
                                position: pos + 3 + n,
                            },
                        )
                    },
                }
            } else if kind_at(ts, pos + 2) == TokenKind::Semicolon {
                Ok((SpecStmt::Var { name, initializer: None }, 3))
            } else {
                Err(SpecFailure { what: Expected::SemicolonAfterDeclaration, position: pos + 2 })
            }
        } else {
            Err(SpecFailure { what: Expected::VariableName, position: pos + 1 })
        }
    } else {
        statement_at(ts, pos)
    }
}

/// `declaration* "}"`: the statements of a block and its closing brace. A
/// declaration takes at least one token (`lemma_consumes`), so the case in
/// which one took none never arises; it is there to keep the definition
/// well-founded.
pub open spec fn block_items_at(ts: Seq<SpecToken>, pos: nat) -> Result<
    (Seq<SpecStmt>, nat),
    SpecFailure,
>
    decreases remaining(ts, pos), 32nat,
{
    let kind = kind_at(ts, pos);
    if kind == TokenKind::RightBrace {
        Ok((Seq::empty(), 1))
    } else if kind == TokenKind::Eof {
        Err(SpecFailure { what: Expected::RightBrace, position: pos })
    } else {
        match declaration_at(ts, pos) {
            Err(f) => Err(f),
            Ok((first, n)) => if n == 0 {
                Err(SpecFailure { what: Expected::RightBrace, position: pos })
            } else {
                match block_items_at(ts, pos + n) {
                    Err(f) => Err(f),
                    Ok((rest, m)) => Ok((seq![first] + rest, n + m)),
                }
            },
        }
    }
}

/// Whether a statement may start with a token of this kind.
pub open spec fn starts_statement(kind: TokenKind) -> bool {
    kind == TokenKind::Class || kind == TokenKind::Fun || kind == TokenKind::Var || kind
        == TokenKind::For || kind == TokenKind::If || kind == TokenKind::While || kind
        == TokenKind::Print || kind == TokenKind::Return
}

/// The first statement boundary at or after `pos`: the end of the input, the
/// token after a semicolon, or a keyword that starts a statement.
pub open spec fn synchronize(ts: Seq<SpecToken>, pos: nat) -> nat
    decreases remaining(ts, pos),
{
    if kind_at(ts, pos) == TokenKind::Eof {
        pos
    } else if pos > 0 && kind_at(ts, (pos - 1) as nat) == TokenKind::Semicolon {
        pos
    } else if starts_statement(kind_at(ts, pos)) {
        pos
    } else {
        synchronize(ts, pos + 1)
    }
}

/// Where parsing resumes after an error at `failed_at`: at the end of the
/// input if the error is there, else at the first statement boundary after
/// the offending token.
pub open spec fn recovery_point(ts: Seq<SpecToken>, failed_at: nat) -> nat {
    if kind_at(ts, failed_at) == TokenKind::Eof {
        failed_at
    } else {
        synchronize(ts, failed_at + 1)
    }
}

/// The error that reports the failure `f`.
pub open spec fn error_at(ts: Seq<SpecToken>, f: SpecFailure) -> SpecParseError {
    SpecParseError {
        token: if kind_at(ts, f.position) == TokenKind::Eof {
            None
        } else {
            Some(ts[f.position as int])
        },
        message: message_text(f.what),
    }
}

/// The statements and the syntax errors of the tokens from `pos` up to the
/// end of the input, each in source order.
#[verifier::opaque]
pub open spec fn program_from(ts: Seq<SpecToken>, pos: nat) -> (Seq<SpecStmt>, Seq<SpecParseError>)
    decreases remaining(ts, pos),
{
    if kind_at(ts, pos) == TokenKind::Eof {
        (Seq::empty(), Seq::empty())
    } else {
        proof {
            lemma_consumes(ts, pos);
        }
        match declaration_at(ts, pos) {
            Ok((s, n)) => {
                let rest = program_from(ts, pos + n);
                (seq![s] + rest.0, rest.1)
            },
            Err(f) => {
                proof {
                    lemma_synchronize_bounds(ts, f.position + 1);
                }
                let rest = program_from(ts, recovery_point(ts, f.position));
                (rest.0, seq![error_at(ts, f)] + rest.1)
            },
        }
    }
}

/// The statements of `ts` if it holds no syntax error, else all its syntax
/// errors in source order.
pub open spec fn parsed(ts: Seq<SpecToken>) -> Result<Seq<SpecStmt>, Seq<SpecParseError>> {
    let all = program_from(ts, 0);
    if all.1.len() == 0 {
        Ok(all.0)
    } else {
        Err(all.1)
    }
}

/// What holds of the outcome of a rule that started at `pos`: success takes
/// at least one token and stays within the input; a failure lies at or after
/// `pos` and within the input or at its end.
pub open spec fn advances<T>(ts: Seq<SpecToken>, pos: nat, r: Result<(T, nat), SpecFailure>) -> bool {
    match r {
        Ok((_, n)) => n >= 1 && pos + n <= ts.len(),
        Err(f) => pos <= f.position && (f.position <= ts.len() || f.position == pos),
    }
}

/// Every expression rule takes at least one token and stays within the input.
pub proof fn lemma_expression_consumes(ts: Seq<SpecToken>, pos: nat, level: nat)
    ensures
        advances(ts, pos, primary_at(ts, pos)),
        advances(ts, pos, unary_at(ts, pos)),
        advances(ts, pos, level_at(ts, pos, level)),
        advances(ts, pos, expression_at(ts, pos)),
    decreases remaining(ts, pos), 40nat,
{
    lemma_primary_consumes(ts, pos);
    lemma_unary_consumes(ts, pos);
    lemma_level_consumes(ts, pos, level);
    lemma_assignment_consumes(ts, pos);
}

proof fn lemma_primary_consumes(ts: Seq<SpecToken>, pos: nat)
    ensures
        advances(ts, pos, primary_at(ts, pos)),
    decreases remaining(ts, pos), 0nat,
{
    if kind_at(ts, pos) == TokenKind::LeftParen {
        lemma_assignment_consumes(ts, pos + 1);
    }
}

proof fn lemma_unary_consumes(ts: Seq<SpecToken>, pos: nat)
    ensures
        advances(ts, pos, unary_at(ts, pos)),
    decreases remaining(ts, pos), 1nat,
{
    let kind = kind_at(ts, pos);
    if kind == TokenKind::Bang || kind == TokenKind::Minus {
        lemma_unary_consumes(ts, pos + 1);
    } else {
        lemma_primary_consumes(ts, pos);
    }
}

proof fn lemma_level_consumes(ts: Seq<SpecToken>, pos: nat, level: nat)
    ensures
        advances(ts, pos, level_at(ts, pos, level)),
    decreases remaining(ts, pos), level_rank(level),
{
    if level >= 6 {
        lemma_unary_consumes(ts, pos);
    } else {
        lemma_level_consumes(ts, pos, level + 1);
        if let Ok((left, n)) = level_at(ts, pos, level + 1) {
            lemma_level_rest_consumes(ts, pos + n, level, left);
        }
    }
}

proof fn lemma_level_rest_consumes(ts: Seq<SpecToken>, pos: nat, level: nat, left: SpecExpr)
    requires
        pos <= ts.len(),
    ensures
        match level_rest_at(ts, pos, level, left) {
            Ok((_, n)) => pos + n <= ts.len(),
            Err(f) => pos <= f.position <= ts.len(),
        },
    decreases remaining(ts, pos), (level_rank(level) - 1) as nat,
{
    if let Some(op) = infix_at(kind_at(ts, pos), level) {
        lemma_level_consumes(ts, pos + 1, level + 1);
        if let Ok((right, n)) = level_at(ts, pos + 1, level + 1) {
            lemma_level_rest_consumes(
                ts,
                pos + 1 + n,
                level,
                combine(left, op, line_at(ts, pos), right),
            );
        }
    }
}

proof fn lemma_assignment_consumes(ts: Seq<SpecToken>, pos: nat)
    ensures
        advances(ts, pos, expression_at(ts, pos)),
    decreases remaining(ts, pos), 20nat,
{
    lemma_level_consumes(ts, pos, 0);
    if let Ok((left, n)) = level_at(ts, pos, 0) {
        if kind_at(ts, pos + n) == TokenKind::Equal {
            lemma_assignment_consumes(ts, pos + n + 1);
        }
    }
}

proof fn lemma_condition_consumes(ts: Seq<SpecToken>, pos: nat, open: Expected, close: Expected)
    ensures
        advances(ts, pos, condition_at(ts, pos, open, close)),
{
    if kind_at(ts, pos) == TokenKind::LeftParen {
        lemma_assignment_consumes(ts, pos + 1);
    }
}

proof fn lemma_statement_consumes(ts: Seq<SpecToken>, pos: nat)
    ensures
        advances(ts, pos, statement_at(ts, pos)),
    decreases remaining(ts, pos), 30nat,
{
    let kind = kind_at(ts, pos);
    if kind == TokenKind::Print {
        lemma_assignment_consumes(ts, pos + 1);
    } else if kind == TokenKind::LeftBrace {
        lemma_block_items_consume(ts, pos + 1);
    } else if kind == TokenKind::If {
        lemma_condition_consumes(
            ts,
            pos + 1,
            Expected::LeftParenAfterIf,
            Expected::RightParenAfterIf,
        );
        if let Ok((condition, n)) = condition_at(
            ts,
            pos + 1,
            Expected::LeftParenAfterIf,
            Expected::RightParenAfterIf,
        ) {
            lemma_statement_consumes(ts, pos + 1 + n);
            if let Ok((then_branch, m)) = statement_at(ts, pos + 1 + n) {
                if kind_at(ts, pos + 1 + n + m) == TokenKind::Else {
                    lemma_statement_consumes(ts, pos + 2 + n + m);
                }
            }
        }
    } else if kind == TokenKind::While {
        lemma_condition_consumes(
            ts,
            pos + 1,
            Expected::LeftParenAfterWhile,
            Expected::RightParenAfterWhile,
        );
        if let Ok((condition, n)) = condition_at(
            ts,
            pos + 1,
            Expected::LeftParenAfterWhile,
            Expected::RightParenAfterWhile,
        ) {
            lemma_statement_consumes(ts, pos + 1 + n);
        }
    } else {
        lemma_assignment_consumes(ts, pos);
    }
}

proof fn lemma_declaration_consumes(ts: Seq<SpecToken>, pos: nat)
    ensures
        advances(ts, pos, declaration_at(ts, pos)),
    decreases remaining(ts, pos), 31nat,
{
    if kind_at(ts, pos) == TokenKind::Var {
        if kind_at(ts, pos + 2) == TokenKind::Equal {
            lemma_assignment_consumes(ts, pos + 3);
        }
    } else {
        lemma_statement_consumes(ts, pos);
    }
}

proof fn lemma_block_items_consume(ts: Seq<SpecToken>, pos: nat)
    ensures
        advances(ts, pos, block_items_at(ts, pos)),
    decreases remaining(ts, pos), 32nat,
{
    let kind = kind_at(ts, pos);
    if kind != TokenKind::RightBrace && kind != TokenKind::Eof {
        lemma_declaration_consumes(ts, pos);
        if let Ok((first, n)) = declaration_at(ts, pos) {
            lemma_block_items_consume(ts, pos + n);
        }
    }
}

/// A statement takes at least one token and stays within the input; a
/// failure lies at or after the place where the statement starts.
pub proof fn lemma_consumes(ts: Seq<SpecToken>, pos: nat)
    ensures
        advances(ts, pos, statement_at(ts, pos)),
        advances(ts, pos, declaration_at(ts, pos)),
        advances(ts, pos, block_items_at(ts, pos)),
{
    lemma_statement_consumes(ts, pos);
    lemma_declaration_consumes(ts, pos);
    lemma_block_items_consume(ts, pos);
}

/// Synchronizing never moves left and never leaves the input.
pub proof fn lemma_synchronize_bounds(ts: Seq<SpecToken>, pos: nat)
    ensures
        pos <= synchronize(ts, pos),
        pos <= ts.len() ==> synchronize(ts, pos) <= ts.len(),
    decreases remaining(ts, pos),
{
    if kind_at(ts, pos) != TokenKind::Eof && !(pos > 0 && kind_at(ts, (pos - 1) as nat)
        == TokenKind::Semicolon) && !starts_statement(kind_at(ts, pos)) {
        lemma_synchronize_bounds(ts, pos + 1);
    }
}

/// Whether the outcome `r` of a rule that started at `pos`, with `len` tokens
/// in all, is the outcome `model`: the same value and the same place to go on,
/// or the same failure.
pub open spec fn agrees<T: View>(
    r: Result<(T, usize), Failure>,
    pos: usize,
    len: nat,
    model: Result<(T::V, nat), SpecFailure>,
) -> bool {
    match r {
        Ok((value, next)) => pos < next <= len && model == Ok::<(T::V, nat), SpecFailure>(
            (value@, (next - pos) as nat),
        ),
        Err(f) => pos <= f.position <= len && model == Err::<(T::V, nat), SpecFailure>(f@),
    }
}

/// The statements `head`, which took `taken` tokens, then what `rest` holds.
pub open spec fn extend_block(
    head: Seq<SpecStmt>,
    taken: nat,
    rest: Result<(Seq<SpecStmt>, nat), SpecFailure>,
) -> Result<(Seq<SpecStmt>, nat), SpecFailure> {
    match rest {
        Ok((items, n)) => Ok((head + items, taken + n)),
        Err(f) => Err(f),
    }
}

/// The model of what `parse` returns.
pub open spec fn parse_result_view(r: Result<Vec<Stmt>, Vec<ParseError>>) -> Result<
    Seq<SpecStmt>,
    Seq<SpecParseError>,
> {
    match r {
        Ok(statements) => Ok(stmts_view(statements@)),
        Err(errors) => Err(errors_view(errors@)),
    }
}

fn kind_of(tokens: &Vec<Token>, pos: usize) -> (k: TokenKind)
    ensures
        k == kind_at(tokens_view(tokens@), pos as nat),
{
    if pos < tokens.len() {
        tokens[pos].kind
    } else {
        TokenKind::Eof
    }
}

fn line_of(tokens: &Vec<Token>, pos: usize) -> (l: u32)
    ensures
        l == line_at(tokens_view(tokens@), pos as nat),
{
    if pos < tokens.len() {
        tokens[pos].line
    } else {
        0
    }
}

fn text_of(tokens: &Vec<Token>, pos: usize) -> (t: Option<String>)
    ensures
        match t {
            Some(s) => text_at(tokens_view(tokens@), pos as nat) == Some(s@),
            None => text_at(tokens_view(tokens@), pos as nat) is None,
        },
{
    if pos < tokens.len() {
        match &tokens[pos].literal {
            Some(Literal::Text(s)) => Some(s.clone()),
            _ => None,
        }
    } else {
        None
    }
}

fn number_of(tokens: &Vec<Token>, pos: usize) -> (n: Option<crate::number::Number>)
    ensures
        n == number_at(tokens_view(tokens@), pos as nat),
{
    if pos < tokens.len() {
        match &tokens[pos].literal {
            Some(Literal::Number(n)) => Some(*n),
            _ => None,
        }
    } else {
        None
    }
}

fn infix_of(kind: TokenKind, level: u8) -> (op: Option<Infix>)
    ensures
        op == infix_at(kind, level as nat),
{
    if level == 0 && kind == TokenKind::Or {
        Some(Infix::Logical(LogicalOp::Or))
    } else if level == 1 && kind == TokenKind::And {
        Some(Infix::Logical(LogicalOp::And))
    } else if level == 2 && kind == TokenKind::BangEqual {
        Some(Infix::Binary(BinaryOp::NotEqual))
    } else if level == 2 && kind == TokenKind::EqualEqual {
        Some(Infix::Binary(BinaryOp::Equal))
    } else if level == 3 && kind == TokenKind::Greater {
        Some(Infix::Binary(BinaryOp::Greater))
    } else if level == 3 && kind == TokenKind::GreaterEqual {
        Some(Infix::Binary(BinaryOp::GreaterEqual))
    } else if level == 3 && kind == TokenKind::Less {
        Some(Infix::Binary(BinaryOp::Less))
    } else if level == 3 && kind == TokenKind::LessEqual {
        Some(Infix::Binary(BinaryOp::LessEqual))
    } else if level == 4 && kind == TokenKind::Minus {
        Some(Infix::Binary(BinaryOp::Subtract))
    } else if level == 4 && kind == TokenKind::Plus {
        Some(Infix::Binary(BinaryOp::Add))
    } else if level == 5 && kind == TokenKind::Slash {
        Some(Infix::Binary(BinaryOp::Divide))
    } else if level == 5 && kind == TokenKind::Star {
        Some(Infix::Binary(BinaryOp::Multiply))
    } else {
        None
    }
}

fn combined(left: Expr, op: Infix, line: u32, right: Expr) -> (e: Expr)
    ensures
        e@ == combine(left@, op, line, right@),
{
    match op {
        Infix::Logical(op) => Expr::Logical { left: Box::new(left), op, right: Box::new(right) },
        Infix::Binary(op) => Expr::Binary { left: Box::new(left), op, line, right: Box::new(right) },
    }
}

#[verifier::rlimit(40)]
fn parse_primary(tokens: &Vec<Token>, pos: usize) -> (r: Result<(Expr, usize), Failure>)
    requires
        pos <= tokens.len(),
    ensures
        agrees(r, pos, tokens@.len(), primary_at(tokens_view(tokens@), pos as nat)),
    decreases tokens.len() - pos, 0nat,
{
    proof {
        lemma_expression_consumes(tokens_view(tokens@), pos as nat, 0);
    }
    let kind: TokenKind = kind_of(tokens, pos);
    let unexpected = Failure { what: Expected::Expression, position: pos };
    if kind == TokenKind::False {
        Ok((Expr::Literal(Value::Bool(false)), pos + 1))
    } else if kind == TokenKind::True {
        Ok((Expr::Literal(Value::Bool(true)), pos + 1))
    } else if kind == TokenKind::Nil {
        Ok((Expr::Literal(Value::Nil), pos + 1))
    } else if kind == TokenKind::Number {
        match number_of(tokens, pos) {
            Some(n) => Ok((Expr::Literal(Value::Number(n)), pos + 1)),
            None => Err(unexpected),
        }
    } else if kind == TokenKind::Str {
        match text_of(tokens, pos) {
            Some(s) => Ok((Expr::Literal(Value::Str(s)), pos + 1)),
            None => Err(unexpected),
        }
    } else if kind == TokenKind::Identifier {
        match text_of(tokens, pos) {
            Some(name) => Ok((Expr::Variable { name, line: line_of(tokens, pos) }, pos + 1)),
            None => Err(unexpected),
        }
    } else if kind == TokenKind::LeftParen {
        match parse_expression(tokens, pos + 1) {
            Err(f) => Err(f),
            Ok((inner, next)) => {
                if kind_of(tokens, next) == TokenKind::RightParen {
                    Ok((Expr::Grouping(Box::new(inner)), next + 1))
                } else {
                    Err(Failure { what: Expected::RightParen, position: next })
                }
            },
        }
    } else {
        Err(unexpected)
    }
}

fn parse_unary(tokens: &Vec<Token>, pos: usize) -> (r: Result<(Expr, usize), Failure>)
    requires
        pos <= tokens.len(),
    ensures
        agrees(r, pos, tokens@.len(), unary_at(tokens_view(tokens@), pos as nat)),
    decreases tokens.len() - pos, 1nat,
{
    let kind: TokenKind = kind_of(tokens, pos);
    if kind == TokenKind::Bang || kind == TokenKind::Minus {
        let op = if kind == TokenKind::Bang {
            UnaryOp::Not
        } else {
            UnaryOp::Negate
        };
        match parse_unary(tokens, pos + 1) {
            Err(f) => Err(f),
            Ok((right, next)) => Ok(
                (Expr::Unary { op, line: line_of(tokens, pos), right: Box::new(right) }, next),
            ),
        }
    } else {
        parse_primary(tokens, pos)
    }
}

fn parse_level(tokens: &Vec<Token>, pos: usize, level: u8) -> (r: Result<(Expr, usize), Failure>)
    requires
        pos <= tokens.len(),
    ensures
        agrees(r, pos, tokens@.len(), level_at(tokens_view(tokens@), pos as nat, level as nat)),
    decreases tokens.len() - pos, level_rank(level as nat),
{
    if level >= 6 {
        parse_unary(tokens, pos)
    } else {
        match parse_level(tokens, pos, level + 1) {
            Err(f) => Err(f),
            Ok((left, next)) => parse_level_rest(tokens, pos, next, level, left),
        }
    }
}

/// Parses the operators of `level` from `pos` on, after the operand `left`,
/// which started at `start`.
fn parse_level_rest(tokens: &Vec<Token>, start: usize, pos: usize, level: u8, left: Expr) -> (r:
    Result<(Expr, usize), Failure>)
    requires
        start < pos <= tokens.len(),
        level < 6,
    ensures
        match r {
            Ok((e, next)) => pos <= next <= tokens.len() && level_rest_at(
                tokens_view(tokens@),
                pos as nat,
                level as nat,
                left@,
            ) == Ok::<(SpecExpr, nat), SpecFailure>((e@, (next - pos) as nat)),
            Err(f) => pos <= f.position <= tokens.len() && level_rest_at(
                tokens_view(tokens@),
                pos as nat,
                level as nat,
                left@,
            ) == Err::<(SpecExpr, nat), SpecFailure>(f@),
        },
    decreases tokens.len() - pos, (level_rank(level as nat) - 1) as nat,
{
    match infix_of(kind_of(tokens, pos), level) {
        None => Ok((left, pos)),
        Some(op) => match parse_level(tokens, pos + 1, level + 1) {
            Err(f) => Err(f),
            Ok((right, next)) => {
                let e = combined(left, op, line_of(tokens, pos), right);
                parse_level_rest(tokens, start, next, level, e)
            },
        },
    }
}

fn parse_expression(tokens: &Vec<Token>, pos: usize) -> (r: Result<(Expr, usize), Failure>)
    requires
        pos <= tokens.len(),
    ensures
        agrees(r, pos, tokens@.len(), expression_at(tokens_view(tokens@), pos as nat)),
    decreases tokens.len() - pos, 20nat,
{
    match parse_level(tokens, pos, 0) {
        Err(f) => Err(f),
        Ok((left, next)) => {
            if kind_of(tokens, next) == TokenKind::Equal {
                match parse_expression(tokens, next + 1) {
                    Err(f) => Err(f),
                    Ok((value, end)) => match left {
                        Expr::Variable { name, line } => Ok(
                            (Expr::Assign { name, line, value: Box::new(value) }, end),
                        ),
                        _ => Err(Failure { what: Expected::AssignmentTarget, position: next }),
                    },
                }
            } else {
                Ok((left, next))
            }
        },
    }
}

fn parse_condition(tokens: &Vec<Token>, pos: usize, open: Expected, close: Expected) -> (r: Result<
    (Expr, usize),
    Failure,
>)
    requires
        pos <= tokens.len(),
    ensures
        agrees(r, pos, tokens@.len(), condition_at(tokens_view(tokens@), pos as nat, open, close)),
    decreases tokens.len() - pos, 21nat,
{
    if kind_of(tokens, pos) != TokenKind::LeftParen {
        Err(Failure { what: open, position: pos })
    } else {
        match parse_expression(tokens, pos + 1) {
            Err(f) => Err(f),
            Ok((condition, next)) => {
                if kind_of(tokens, next) == TokenKind::RightParen {
                    Ok((condition, next + 1))
                } else {
                    Err(Failure { what: close, position: next })
                }
            },
        }
    }
}

#[verifier::rlimit(40)]
fn parse_statement(tokens: &Vec<Token>, pos: usize) -> (r: Result<(Stmt, usize), Failure>)
    requires
        pos <= tokens.len(),
    ensures
        agrees(r, pos, tokens@.len(), statement_at(tokens_view(tokens@), pos as nat)),
    decreases tokens.len() - pos, 30nat,
{
    let kind: TokenKind = kind_of(tokens, pos);
    if kind == TokenKind::Print {
        match parse_expression(tokens, pos + 1) {
            Err(f) => Err(f),
            Ok((e, next)) => {
                if kind_of(tokens, next) == TokenKind::Semicolon {
                    Ok((Stmt::Print(e), next + 1))
                } else {
                    Err(Failure { what: Expected::SemicolonAfterValue, position: next })
                }
            },
        }
    } else if kind == TokenKind::LeftBrace {
        match parse_block_items(tokens, pos + 1) {
            Err(f) => Err(f),
            Ok((items, next)) => {
                proof {
                    lemma_block_view(items);
                }
                Ok((Stmt::Block(items), next))
            },
        }
    } else if kind == TokenKind::If {
        match parse_condition(
            tokens,
            pos + 1,
            Expected::LeftParenAfterIf,
            Expected::RightParenAfterIf,
        ) {
            Err(f) => Err(f),
            Ok((condition, next)) => match parse_statement(tokens, next) {
                Err(f) => Err(f),
                Ok((then_branch, after)) => {
                    if kind_of(tokens, after) == TokenKind::Else {
                        match parse_statement(tokens, after + 1) {
                            Err(f) => Err(f),
                            Ok((else_branch, end)) => Ok(
                                (
                                    Stmt::If {
                                        condition,
                                        then_branch: Box::new(then_branch),
                                        else_branch: Some(Box::new(else_branch)),
                                    },
                                    end,
                                ),
                            ),
                        }
                    } else {
                        Ok(
                            (
                                Stmt::If {
                                    condition,
                                    then_branch: Box::new(then_branch),
                                    else_branch: None,
                                },
                                after,
                            ),
                        )
                    }
                },
            },
        }
    } else if kind == TokenKind::While {
        match parse_condition(
            tokens,
            pos + 1,
            Expected::LeftParenAfterWhile,
            Expected::RightParenAfterWhile,
        ) {
            Err(f) => Err(f),
            Ok((condition, next)) => match parse_statement(tokens, next) {
                Err(f) => Err(f),
                Ok((body, end)) => Ok(
                    (
                        Stmt::While { condition, body: Box::new(body), line: line_of(tokens, pos) },
                        end,
                    ),
                ),
            },
        }
    } else {
        match parse_expression(tokens, pos) {
            Err(f) => Err(f),
            Ok((e, next)) => {
                if kind_of(tokens, next) == TokenKind::Semicolon {
                    Ok((Stmt::Expression(e), next + 1))
                } else {
                    Err(Failure { what: Expected::SemicolonAfterExpression, position: next })
                }
            },
        }
    }
}

#[verifier::rlimit(40)]
fn parse_declaration(tokens: &Vec<Token>, pos: usize) -> (r: Result<(Stmt, usize), Failure>)
    requires
        pos <= tokens.len(),
    ensures
        agrees(r, pos, tokens@.len(), declaration_at(tokens_view(tokens@), pos as nat)),
    decreases tokens.len() - pos, 31nat,
{
    if kind_of(tokens, pos) == TokenKind::Var {
        let named: Option<String> = if kind_of(tokens, pos + 1) == TokenKind::Identifier {
            text_of(tokens, pos + 1)
        } else {
            None
        };
        match named {
            None => Err(Failure { what: Expected::VariableName, position: pos + 1 }),
            Some(name) => {
                let after: TokenKind = kind_of(tokens, pos + 2);
                if after == TokenKind::Equal {
                    match parse_expression(tokens, pos + 3) {
                        Err(f) => Err(f),
                        Ok((e, next)) => {
                            if kind_of(tokens, next) == TokenKind::Semicolon {
                                Ok((Stmt::Var { name, initializer: Some(e) }, next + 1))
                            } else {
                                Err(
                                    Failure {
                                        what: Expected::SemicolonAfterDeclaration,
                                        position: next,
                                    },
                                )
                            }
                        },
                    }
                } else if after == TokenKind::Semicolon {
                    Ok((Stmt::Var { name, initializer: None }, pos + 3))
                } else {
                    Err(Failure { what: Expected::SemicolonAfterDeclaration, position: pos + 2 })
                }
            },
        }
    } else {
        parse_statement(tokens, pos)
    }
}

#[verifier::rlimit(40)]
fn parse_block_items(tokens: &Vec<Token>, pos: usize) -> (r: Result<(Vec<Stmt>, usize), Failure>)
    requires
        pos <= tokens.len(),
    ensures
        match r {
            Ok((items, next)) => pos < next <= tokens.len() && block_items_at(
                tokens_view(tokens@),
                pos as nat,
            ) == Ok::<(Seq<SpecStmt>, nat), SpecFailure>(
                (stmts_view(items@), (next - pos) as nat),
            ),
            Err(f) => pos <= f.position <= tokens.len() && block_items_at(
                tokens_view(tokens@),
                pos as nat,
            ) == Err::<(Seq<SpecStmt>, nat), SpecFailure>(f@),
        },
    decreases tokens.len() - pos, 32nat,
{
    let ghost ts = tokens_view(tokens@);
    let mut items: Vec<Stmt> = Vec::new();
    let mut cur: usize = pos;
    assert(extend_block(stmts_view(items@), 0, block_items_at(ts, pos as nat)) == block_items_at(
        ts,
        pos as nat,
    )) by {
        if let Ok((rest, m)) = block_items_at(ts, pos as nat) {
            assert(stmts_view(items@) + rest =~= rest);
        }
    }
    loop
        invariant
            pos <= cur <= tokens.len(),
            ts == tokens_view(tokens@),
            block_items_at(ts, pos as nat) == extend_block(
                stmts_view(items@),
                (cur - pos) as nat,
                block_items_at(ts, cur as nat),
            ),
        decreases tokens.len() - cur,
    {
        let kind: TokenKind = kind_of(tokens, cur);
        if kind == TokenKind::RightBrace {
            assert(stmts_view(items@) + Seq::<SpecStmt>::empty() =~= stmts_view(items@));
            return Ok((items, cur + 1));
        }
        if kind == TokenKind::Eof {
            return Err(Failure { what: Expected::RightBrace, position: cur });
        }
        match parse_declaration(tokens, cur) {
            Err(f) => {
                return Err(f);
            },
            Ok((first, next)) => {
                let ghost before = stmts_view(items@);
                items.push(first);
                proof {
                    assert(stmts_view(items@) =~= before + seq![first@]);
                    if let Ok((rest, m)) = block_items_at(ts, next as nat) {
                        assert(before + (seq![first@] + rest) =~= (before + seq![first@]) + rest);
                    }
                }
                cur = next;
            },
        }
    }
}

fn starts_a_statement(kind: TokenKind) -> (b: bool)
    ensures
        b == starts_statement(kind),
{
    kind == TokenKind::Class || kind == TokenKind::Fun || kind == TokenKind::Var || kind
        == TokenKind::For || kind == TokenKind::If || kind == TokenKind::While || kind
        == TokenKind::Print || kind == TokenKind::Return
}

/// Where parsing resumes after an error at `failed_at`.
fn recover(tokens: &Vec<Token>, failed_at: usize) -> (p: usize)
    requires
        failed_at <= tokens.len(),
    ensures
        p == recovery_point(tokens_view(tokens@), failed_at as nat),
        failed_at <= p <= tokens.len(),
        kind_at(tokens_view(tokens@), failed_at as nat) != TokenKind::Eof ==> failed_at < p,
{
    if kind_of(tokens, failed_at) == TokenKind::Eof {
        return failed_at;
    }
    let mut p: usize = failed_at + 1;
    loop
        invariant
            failed_at < p <= tokens.len(),
            kind_at(tokens_view(tokens@), failed_at as nat) != TokenKind::Eof,
            synchronize(tokens_view(tokens@), (failed_at + 1) as nat) == synchronize(
                tokens_view(tokens@),
                p as nat,
            ),
        decreases tokens.len() - p,
    {
        let kind: TokenKind = kind_of(tokens, p);
        if kind == TokenKind::Eof || kind_of(tokens, p - 1) == TokenKind::Semicolon
            || starts_a_statement(kind) {
            return p;
        }
        p += 1;
    }
}

/// The error that reports the failure `f`.
fn error_for(tokens: &Vec<Token>, f: Failure) -> (e: ParseError)
    requires
        f.position <= tokens.len(),
    ensures
        e@ == error_at(tokens_view(tokens@), f@),
{
    let token: Option<Token> = if kind_of(tokens, f.position) == TokenKind::Eof {
        None
    } else {
        Some(tokens[f.position].clone())
    };
    ParseError { token, message: message(f.what) }
}

/// A statement that parses adds itself to the program and adds no error: the
/// rest of the program follows it.
pub proof fn lemma_program_after_statement(ts: Seq<SpecToken>, pos: nat, head: Seq<SpecStmt>)
    requires
        kind_at(ts, pos) != TokenKind::Eof,
        declaration_at(ts, pos) is Ok,
    ensures
        ({
            let (s, n) = declaration_at(ts, pos)->Ok_0;
            &&& head + program_from(ts, pos).0 == head.push(s) + program_from(ts, pos + n).0
            &&& program_from(ts, pos).1 == program_from(ts, pos + n).1
        }),
{
    reveal(program_from);
    let (s, n) = declaration_at(ts, pos)->Ok_0;
    let rest = program_from(ts, pos + n);
    assert(program_from(ts, pos).0 == seq![s] + rest.0);
    assert(head + (seq![s] + rest.0) =~= head.push(s) + rest.0);
}

/// A statement that fails adds its error and no statement, and parsing goes
/// on at the recovery point: the errors of the rest of the program follow.
pub proof fn lemma_program_after_error(ts: Seq<SpecToken>, pos: nat, head: Seq<SpecParseError>)
    requires
        kind_at(ts, pos) != TokenKind::Eof,
        declaration_at(ts, pos) is Err,
    ensures
        ({
            let f = declaration_at(ts, pos)->Err_0;
            let resume = recovery_point(ts, f.position);
            &&& program_from(ts, pos).0 == program_from(ts, resume).0
            &&& head + program_from(ts, pos).1 == head.push(error_at(ts, f)) + program_from(
                ts,
                resume,
            ).1
        }),
{
    reveal(program_from);
    let f = declaration_at(ts, pos)->Err_0;
    let rest = program_from(ts, recovery_point(ts, f.position));
    assert(program_from(ts, pos).1 == seq![error_at(ts, f)] + rest.1);
    assert(head + (seq![error_at(ts, f)] + rest.1) =~= head.push(error_at(ts, f)) + rest.1);
}

/// At the end of the input the program is empty.
proof fn lemma_program_at_end(ts: Seq<SpecToken>, pos: nat)
    requires
        kind_at(ts, pos) == TokenKind::Eof,
    ensures
        program_from(ts, pos) == (Seq::<SpecStmt>::empty(), Seq::<SpecParseError>::empty()),
{
    reveal(program_from);
}

proof fn lemma_push_statement(v: Seq<Stmt>, s: Stmt)
    ensures
        stmts_view(v.push(s)) == stmts_view(v).push(s@),
{
    assert(stmts_view(v.push(s)) =~= stmts_view(v).push(s@));
}

proof fn lemma_push_error(v: Seq<ParseError>, e: ParseError)
    ensures
        errors_view(v.push(e)) == errors_view(v).push(e@),
{
    assert(errors_view(v.push(e)) =~= errors_view(v).push(e@));
}

/// Parses `tokens` into statements. If any statement holds a syntax error,
/// the result is every syntax error found, in source order: after an error
/// the parser skips to the next statement boundary and goes on.
#[verifier::rlimit(40)]
pub fn parse(tokens: &Vec<Token>) -> (r: Result<Vec<Stmt>, Vec<ParseError>>)
    ensures
        parse_result_view(r) == parsed(tokens_view(tokens@)),
{
    let ghost ts = tokens_view(tokens@);
    let mut statements: Vec<Stmt> = Vec::new();
    let mut errors: Vec<ParseError> = Vec::new();
    let mut pos: usize = 0;
    assert(stmts_view(statements@) + program_from(ts, 0).0 =~= program_from(ts, 0).0);
    assert(errors_view(errors@) + program_from(ts, 0).1 =~= program_from(ts, 0).1);
    while kind_of(tokens, pos) != TokenKind::Eof
        invariant
            pos <= tokens.len(),
            ts == tokens_view(tokens@),
            program_from(ts, 0).0 == stmts_view(statements@) + program_from(ts, pos as nat).0,
            program_from(ts, 0).1 == errors_view(errors@) + program_from(ts, pos as nat).1,
        decreases tokens.len() - pos,
    {
        match parse_declaration(tokens, pos) {
            Ok((s, next)) => {
                proof {
                    lemma_program_after_statement(ts, pos as nat, stmts_view(statements@));
                    lemma_push_statement(statements@, s);
                }
                statements.push(s);
                pos = next;
            },
            Err(f) => {
                let e: ParseError = error_for(tokens, f);
                let resume: usize = recover(tokens, f.position);
                proof {
                    lemma_program_after_error(ts, pos as nat, errors_view(errors@));
                    lemma_push_error(errors@, e);
                }
                errors.push(e);
                pos = resume;
            },
        }
    }
    proof {
        lemma_program_at_end(ts, pos as nat);
        assert(stmts_view(statements@) + Seq::<SpecStmt>::empty() =~= stmts_view(statements@));
        assert(errors_view(errors@) + Seq::<SpecParseError>::empty() =~= errors_view(errors@));
    }
    if errors.len() == 0 {
        Ok(statements)
    } else {
        Err(errors)
    }
}

/// Two statements that fail, each on its own, give two errors. If the
/// statement at `first` fails, the statement at its recovery point fails too,
/// and what comes before, between and after the two parses, then the program
/// has exactly these two errors, in this order.
pub proof fn lemma_two_errors(ts: Seq<SpecToken>, first: nat, second: nat)
    requires
        first <= second <= ts.len(),
        kind_at(ts, first) != TokenKind::Eof,
        kind_at(ts, second) != TokenKind::Eof,
        declaration_at(ts, first) is Err,
        declaration_at(ts, second) is Err,
        program_from(ts, 0).1 == program_from(ts, first).1,
        program_from(ts, recovery_point(ts, declaration_at(ts, first)->Err_0.position)).1
            == program_from(ts, second).1,
        program_from(ts, recovery_point(ts, declaration_at(ts, second)->Err_0.position)).1.len()
            == 0,
    ensures
        parsed(ts) == Err::<Seq<SpecStmt>, Seq<SpecParseError>>(
            seq![
                error_at(ts, declaration_at(ts, first)->Err_0),
                error_at(ts, declaration_at(ts, second)->Err_0),
            ],
        ),
{
    let none = Seq::<SpecParseError>::empty();
    lemma_program_after_error(ts, first, none);
    lemma_program_after_error(ts, second, none);
    let e1 = error_at(ts, declaration_at(ts, first)->Err_0);
    let e2 = error_at(ts, declaration_at(ts, second)->Err_0);
    let rest = program_from(ts, recovery_point(ts, declaration_at(ts, second)->Err_0.position)).1;
    assert(rest =~= none);
    assert(none + program_from(ts, second).1 =~= program_from(ts, second).1);
    assert(none + program_from(ts, first).1 =~= program_from(ts, first).1);
    assert(program_from(ts, 0).1 =~= seq![e1, e2]);
}

} // verus!
