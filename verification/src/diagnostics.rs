//! The text of tokens, expressions and errors, for diagnostics.

use vstd::prelude::*;
use crate::ast::{BinaryOp, Expr, LogicalOp, SpecExpr, UnaryOp};
use crate::interpreter::{RuntimeError, SpecRuntimeError};
use crate::number::{number_text, NumeralError};
use crate::parser::{ParseError, SpecParseError};
use crate::scanner::{ScanError, ScanErrorType, SpecScanError, SpecScanErrorType};
use crate::text::{decimal_digits, push_decimal, push_str, string_from_chars};
use crate::token::{Literal, SpecLiteral, SpecToken, Token, TokenKind};
use crate::value::{value_text, SpecValue, Value};

verus! {

/// The text of the tokens of each kind that has one text only; empty for
/// identifiers, strings, numerals and the end of the input.
pub open spec fn kind_text(kind: TokenKind) -> Seq<char> {
    match kind {
        TokenKind::LeftParen => "("@,
        TokenKind::RightParen => ")"@,
        TokenKind::LeftBrace => "{"@,
        TokenKind::RightBrace => "}"@,
        TokenKind::Comma => ","@,
        TokenKind::Dot => "."@,
        TokenKind::Minus => "-"@,
        TokenKind::Plus => "+"@,
        TokenKind::Semicolon => ";"@,
        TokenKind::Slash => "/"@,
        TokenKind::Star => "*"@,
        TokenKind::Bang => "!"@,
        TokenKind::BangEqual => "!="@,
        TokenKind::Equal => "="@,
        TokenKind::EqualEqual => "=="@,
        TokenKind::Greater => ">"@,
        TokenKind::GreaterEqual => ">="@,
        TokenKind::Less => "<"@,
        TokenKind::LessEqual => "<="@,
        TokenKind::And => "and"@,
        TokenKind::Class => "class"@,
        TokenKind::Else => "else"@,
        TokenKind::False => "false"@,
        TokenKind::Fun => "fun"@,
        TokenKind::For => "for"@,
        TokenKind::If => "if"@,
        TokenKind::Nil => "nil"@,
        TokenKind::Or => "or"@,
        TokenKind::Print => "print"@,
        TokenKind::Return => "return"@,
        TokenKind::Super => "super"@,
        TokenKind::This => "this"@,
        TokenKind::True => "true"@,
        TokenKind::Var => "var"@,
        TokenKind::While => "while"@,
        _ => ""@,
    }
}

/// The text of the tokens of a kind.
pub fn kind_str(kind: TokenKind) -> (s: &'static str)
    ensures
        s@ == kind_text(kind),
{
    match kind {
        TokenKind::LeftParen => "(",
        TokenKind::RightParen => ")",
        TokenKind::LeftBrace => "{",
        TokenKind::RightBrace => "}",
        TokenKind::Comma => ",",
        TokenKind::Dot => ".",
        TokenKind::Minus => "-",
        TokenKind::Plus => "+",
        TokenKind::Semicolon => ";",
        TokenKind::Slash => "/",
        TokenKind::Star => "*",
        TokenKind::Bang => "!",
        TokenKind::BangEqual => "!=",
        TokenKind::Equal => "=",
        TokenKind::EqualEqual => "==",
        TokenKind::Greater => ">",
        TokenKind::GreaterEqual => ">=",
        TokenKind::Less => "<",
        TokenKind::LessEqual => "<=",
        TokenKind::And => "and",
        TokenKind::Class => "class",
        TokenKind::Else => "else",
        TokenKind::False => "false",
        TokenKind::Fun => "fun",
        TokenKind::For => "for",
        TokenKind::If => "if",
        TokenKind::Nil => "nil",
        TokenKind::Or => "or",
        TokenKind::Print => "print",
        TokenKind::Return => "return",
        TokenKind::Super => "super",
        TokenKind::This => "this",
        TokenKind::True => "true",
        TokenKind::Var => "var",
        TokenKind::While => "while",
        _ => "",
    }
}

/// The text of a token as a diagnostic shows it: a name as it is, a string
/// between double quotes, a numeral in decimal notation, any other token by
/// the text of its kind.
pub open spec fn token_text(t: SpecToken) -> Seq<char> {
    match t.literal {
        Some(SpecLiteral::Text(s)) => if t.kind == TokenKind::Str {
            "\""@ + s + "\""@
        } else {
            s
        },
        Some(SpecLiteral::Number(n)) => number_text(n.units as int),
        None => kind_text(t.kind),
    }
}

/// Appends the text of a token to `out`.
pub fn push_token(t: &Token, out: &mut Vec<char>)
    ensures
        final(out)@ == old(out)@ + token_text(t@),
{
    match &t.literal {
        Some(Literal::Text(s)) => {
            if t.kind == TokenKind::Str {
                push_str("\"", out);
                push_str(s.as_str(), out);
                push_str("\"", out);
                assert(out@ =~= old(out)@ + ("\""@ + s@ + "\""@));
            } else {
                push_str(s.as_str(), out);
            }
        },
        Some(Literal::Number(n)) => {
            n.push_text(out);
        },
        None => {
            push_str(kind_str(t.kind), out);
        },
    }
}

/// The symbol of a prefix operator.
pub open spec fn unary_text(op: UnaryOp) -> Seq<char> {
    match op {
        UnaryOp::Negate => "-"@,
        UnaryOp::Not => "!"@,
    }
}

/// The symbol of an arithmetic, comparison or equality operator, between two
/// spaces.
pub open spec fn binary_text(op: BinaryOp) -> Seq<char> {
    match op {
        BinaryOp::Add => " + "@,
        BinaryOp::Subtract => " - "@,
        BinaryOp::Multiply => " * "@,
        BinaryOp::Divide => " / "@,
        BinaryOp::Greater => " > "@,
        BinaryOp::GreaterEqual => " >= "@,
        BinaryOp::Less => " < "@,
        BinaryOp::LessEqual => " <= "@,
        BinaryOp::Equal => " == "@,
        BinaryOp::NotEqual => " != "@,
    }
}

/// The keyword of a short-circuit operator, between two spaces.
pub open spec fn logical_text(op: LogicalOp) -> Seq<char> {
    match op {
        LogicalOp::And => " and "@,
        LogicalOp::Or => " or "@,
    }
}

fn unary_str(op: UnaryOp) -> (s: &'static str)
    ensures
        s@ == unary_text(op),
{
    match op {
        UnaryOp::Negate => "-",
        UnaryOp::Not => "!",
    }
}

fn binary_str(op: BinaryOp) -> (s: &'static str)
    ensures
        s@ == binary_text(op),
{
    match op {
        BinaryOp::Add => " + ",
        BinaryOp::Subtract => " - ",
        BinaryOp::Multiply => " * ",
        BinaryOp::Divide => " / ",
        BinaryOp::Greater => " > ",
        BinaryOp::GreaterEqual => " >= ",
        BinaryOp::Less => " < ",
        BinaryOp::LessEqual => " <= ",
        BinaryOp::Equal => " == ",
        BinaryOp::NotEqual => " != ",
    }
}

fn logical_str(op: LogicalOp) -> (s: &'static str)
    ensures
        s@ == logical_text(op),
{
    match op {
        LogicalOp::And => " and ",
        LogicalOp::Or => " or ",
    }
}

/// The text of a literal in source notation: a string between double quotes.
pub open spec fn literal_text(v: SpecValue) -> Seq<char> {
    match v {
        SpecValue::Str(s) => "\""@ + s + "\""@,
        _ => value_text(v),
    }
}

/// The text of an expression in source notation.
pub open spec fn expr_text(e: SpecExpr) -> Seq<char>
    decreases e,
{
    match e {
        SpecExpr::Literal(v) => literal_text(v),
        SpecExpr::Grouping(inner) => "("@ + expr_text(*inner) + ")"@,
        SpecExpr::Unary { op, line, right } => unary_text(op) + expr_text(*right),
        SpecExpr::Binary { left, op, line, right } => expr_text(*left) + binary_text(op)
            + expr_text(*right),
        SpecExpr::Logical { left, op, right } => expr_text(*left) + logical_text(op) + expr_text(
            *right,
        ),
        SpecExpr::Variable { name, line } => name,
        SpecExpr::Assign { name, line, value } => name + " = "@ + expr_text(*value),
    }
}

/// Appends the text of an expression to `out`.
pub fn push_expr(e: &Expr, out: &mut Vec<char>)
    ensures
        final(out)@ == old(out)@ + expr_text(e@),
    decreases e,
{
    match e {
        Expr::Literal(v) => {
            match v {
                Value::Str(s) => {
                    push_str("\"", out);
                    push_str(s.as_str(), out);
                    push_str("\"", out);
                    assert(out@ =~= old(out)@ + ("\""@ + s@ + "\""@));
                },
                _ => {
                    v.push_text(out);
                },
            }
        },
        Expr::Grouping(inner) => {
            push_str("(", out);
            push_expr(&**inner, out);
            push_str(")", out);
            assert(out@ =~= old(out)@ + ("("@ + expr_text((**inner)@) + ")"@));
        },
        Expr::Unary { op, line, right } => {
            push_str(unary_str(*op), out);
            push_expr(&**right, out);
            assert(out@ =~= old(out)@ + (unary_text(*op) + expr_text((**right)@)));
        },
        Expr::Binary { left, op, line, right } => {
            push_expr(&**left, out);
            push_str(binary_str(*op), out);
            push_expr(&**right, out);
            assert(out@ =~= old(out)@ + (expr_text((**left)@) + binary_text(*op) + expr_text(
                (**right)@,
            )));
        },
        Expr::Logical { left, op, right } => {
            push_expr(&**left, out);
            push_str(logical_str(*op), out);
            push_expr(&**right, out);
            assert(out@ =~= old(out)@ + (expr_text((**left)@) + logical_text(*op) + expr_text(
                (**right)@,
            )));
        },
        Expr::Variable { name, line } => {
            push_str(name.as_str(), out);
        },
        Expr::Assign { name, line, value } => {
            push_str(name.as_str(), out);
            push_str(" = ", out);
            push_expr(&**value, out);
            assert(out@ =~= old(out)@ + (name@ + " = "@ + expr_text((**value)@)));
        },
    }
}

/// The line that reports a problem on line `line`:
/// `[line N] Error <location>: <message>`.
pub open spec fn report_text(line: u32, location: Seq<char>, message: Seq<char>) -> Seq<char> {
    "[line "@ + decimal_digits(line as nat) + "] Error "@ + location + ": "@ + message
}

/// Why a numeral denotes no number, in words.
pub open spec fn numeral_error_text(e: NumeralError) -> Seq<char> {
    match e {
        NumeralError::Malformed => "invalid numeral"@,
        NumeralError::OutOfRange => "number too large"@,
    }
}

fn numeral_error_str(e: NumeralError) -> (s: &'static str)
    ensures
        s@ == numeral_error_text(e),
{
    match e {
        NumeralError::Malformed => "invalid numeral",
        NumeralError::OutOfRange => "number too large",
    }
}

/// What a lexical error says: its cause and the offset it is at.
pub open spec fn scan_message_text(e: SpecScanError) -> Seq<char> {
    let place = " at "@ + decimal_digits(e.position as nat);
    match e.cause {
        SpecScanErrorType::BadChar(c) => "Unexpected character "@ + seq![c] + place,
        SpecScanErrorType::UnterminatedString(s) => "Unterminated string "@ + s + place,
        SpecScanErrorType::NumberParseError(s, reason) => "Could not parse "@ + s
            + " as a number"@ + place + " ("@ + numeral_error_text(reason) + ")"@,
    }
}

/// The message of a lexical error.
pub fn scan_message(e: &ScanError) -> (s: String)
    ensures
        s@ == scan_message_text(e@),
{
    let mut out: Vec<char> = Vec::new();
    match &e.cause {
        ScanErrorType::BadChar(c) => {
            push_str("Unexpected character ", &mut out);
            out.push(*c);
            push_str(" at ", &mut out);
            push_decimal(e.position as u64, &mut out);
            assert(out@ =~= scan_message_text(e@));
        },
        ScanErrorType::UnterminatedString(text) => {
            push_str("Unterminated string ", &mut out);
            push_str(text.as_str(), &mut out);
            push_str(" at ", &mut out);
            push_decimal(e.position as u64, &mut out);
            assert(out@ =~= scan_message_text(e@));
        },
        ScanErrorType::NumberParseError(text, reason) => {
            push_str("Could not parse ", &mut out);
            push_str(text.as_str(), &mut out);
            push_str(" as a number", &mut out);
            push_str(" at ", &mut out);
            push_decimal(e.position as u64, &mut out);
            push_str(" (", &mut out);
            push_str(numeral_error_str(*reason), &mut out);
            push_str(")", &mut out);
            assert(out@ =~= scan_message_text(e@));
        },
    }
    string_from_chars(&out)
}

/// How a syntax error shows the token that it is at: the token by its text,
/// as `token_text` gives it, which is this library's own notation for a
/// token; `None` where the error is at the end of the input.
pub open spec fn offending_text(token: Option<SpecToken>) -> Seq<char> {
    match token {
        Some(t) => token_text(t),
        None => "None"@,
    }
}

/// What a syntax error says: `parser error on <token>: <message>`.
pub open spec fn parse_message_text(e: SpecParseError) -> Seq<char> {
    "parser error on "@ + offending_text(e.token) + ": "@ + e.message
}

/// The line of a syntax error: that of its token, or zero at the end of the
/// input.
pub open spec fn error_line(token: Option<SpecToken>) -> u32 {
    match token {
        Some(t) => t.line,
        None => 0,
    }
}

/// The line that reports a lexical error.
pub open spec fn scan_diagnostic_text(e: SpecScanError) -> Seq<char> {
    report_text(e.line, Seq::empty(), scan_message_text(e))
}

/// The line that reports a syntax error. Like a lexical error it has no
/// location: `[line N] Error : parser error on <token>: <message>`.
pub open spec fn parse_diagnostic_text(e: SpecParseError) -> Seq<char> {
    report_text(error_line(e.token), Seq::empty(), parse_message_text(e))
}

/// The line that reports a runtime error: `<message> [line N]: <expr>`.
pub open spec fn runtime_diagnostic_text(e: SpecRuntimeError) -> Seq<char> {
    e.message + " [line "@ + decimal_digits(e.line as nat) + "]: "@ + expr_text(e.expr)
}

/// Appends the line that reports a problem on line `line` to `out`.
pub fn push_report(line: u32, location: &str, message: &str, out: &mut Vec<char>)
    ensures
        final(out)@ == old(out)@ + report_text(line, location@, message@),
{
    push_str("[line ", out);
    push_decimal(line as u64, out);
    push_str("] Error ", out);
    push_str(location, out);
    push_str(": ", out);
    push_str(message, out);
    assert(out@ =~= old(out)@ + report_text(line, location@, message@));
}

/// The line that reports a lexical error.
pub fn scan_diagnostic(e: &ScanError) -> (s: String)
    ensures
        s@ == scan_diagnostic_text(e@),
{
    let message: String = scan_message(e);
    let mut out: Vec<char> = Vec::new();
    push_report(e.line, "", message.as_str(), &mut out);
    assert(""@ =~= Seq::<char>::empty()) by {
        reveal_strlit("");
    }
    assert(out@ =~= scan_diagnostic_text(e@));
    string_from_chars(&out)
}

/// The message of a syntax error.
pub fn parse_message(e: &ParseError) -> (s: String)
    ensures
        s@ == parse_message_text(e@),
{
    let mut out: Vec<char> = Vec::new();
    push_str("parser error on ", &mut out);
    match &e.token {
        Some(t) => {
            push_token(t, &mut out);
        },
        None => {
            push_str("None", &mut out);
        },
    }
    push_str(": ", &mut out);
    push_str(e.message.as_str(), &mut out);
    assert(out@ =~= parse_message_text(e@));
    string_from_chars(&out)
}

/// The line that reports a syntax error.
pub fn parse_diagnostic(e: &ParseError) -> (s: String)
    ensures
        s@ == parse_diagnostic_text(e@),
{
    let line: u32 = match &e.token {
        Some(t) => t.line,
        None => 0,
    };
    let message: String = parse_message(e);
    let mut out: Vec<char> = Vec::new();
    push_report(line, "", message.as_str(), &mut out);
    assert(""@ =~= Seq::<char>::empty()) by {
        reveal_strlit("");
    }
    assert(out@ =~= parse_diagnostic_text(e@));
    string_from_chars(&out)
}

/// The line that reports a runtime error.
pub fn runtime_diagnostic(e: &RuntimeError) -> (s: String)
    ensures
        s@ == runtime_diagnostic_text(e@),
{
    let mut out: Vec<char> = Vec::new();
    push_str(e.message.as_str(), &mut out);
    push_str(" [line ", &mut out);
    push_decimal(e.line as u64, &mut out);
    push_str("]: ", &mut out);
    push_expr(&e.expr, &mut out);
    assert(out@ =~= runtime_diagnostic_text(e@));
    string_from_chars(&out)
}

} // verus!
