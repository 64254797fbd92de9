use rlox::ast::{BinaryOp, Expr, LogicalOp, UnaryOp};
use rlox::diagnostics::{
    kind_str, parse_diagnostic, parse_message, push_expr, push_report, push_token,
    runtime_diagnostic, scan_diagnostic, scan_message,
};
use rlox::interpreter::RuntimeError;
use rlox::number::{Number, NumeralError};
use rlox::parser::ParseError;
use rlox::scanner::{scan, ScanError, ScanErrorType};
use rlox::token::{Literal, Token, TokenKind};
use rlox::value::Value;

fn shown(e: &Expr) -> String {
    let mut out: Vec<char> = Vec::new();
    push_expr(e, &mut out);
    out.into_iter().collect()
}

fn one() -> Box<Expr> {
    Box::new(Expr::Literal(Value::Number(Number { units: 1_000_000 })))
}

fn name(n: &str) -> Box<Expr> {
    Box::new(Expr::Variable { name: n.to_string(), line: 1 })
}

#[test]
fn every_fixed_token_has_its_text() {
    let source = "( ) { } , . - + ; / * ! != = == > >= < <= and class else false fun for if nil or print return super this true var while";
    let tokens = scan(source).unwrap();
    let texts: Vec<&str> = tokens.iter().map(|t| kind_str(t.kind)).collect();
    let mut expected: Vec<&str> = source.split(' ').collect();
    expected.push("");
    assert_eq!(texts, expected);
    assert_eq!(kind_str(TokenKind::Identifier), "");
    assert_eq!(kind_str(TokenKind::Str), "");
    assert_eq!(kind_str(TokenKind::Number), "");
}

#[test]
fn token_text_shows_what_the_token_carries() {
    let tokens = scan("while x \"a b\" 2.50 <=").unwrap();
    let mut out: Vec<char> = Vec::new();
    for t in &tokens {
        push_token(t, &mut out);
        out.push('|');
    }
    let s: String = out.into_iter().collect();
    assert_eq!(s, "while|x|\"a b\"|2.5|<=||");
}

#[test]
fn expression_text_of_each_operator() {
    let ops = [
        (BinaryOp::Add, "1 + x"),
        (BinaryOp::Subtract, "1 - x"),
        (BinaryOp::Multiply, "1 * x"),
        (BinaryOp::Divide, "1 / x"),
        (BinaryOp::Greater, "1 > x"),
        (BinaryOp::GreaterEqual, "1 >= x"),
        (BinaryOp::Less, "1 < x"),
        (BinaryOp::LessEqual, "1 <= x"),
        (BinaryOp::Equal, "1 == x"),
        (BinaryOp::NotEqual, "1 != x"),
    ];
    for (op, text) in ops {
        assert_eq!(shown(&Expr::Binary { left: one(), op, line: 1, right: name("x") }), text);
    }
    assert_eq!(
        shown(&Expr::Logical { left: name("a"), op: LogicalOp::And, right: name("b") }),
        "a and b"
    );
    assert_eq!(
        shown(&Expr::Logical { left: name("a"), op: LogicalOp::Or, right: name("b") }),
        "a or b"
    );
    assert_eq!(shown(&Expr::Unary { op: UnaryOp::Negate, line: 1, right: one() }), "-1");
    assert_eq!(shown(&Expr::Unary { op: UnaryOp::Not, line: 1, right: name("x") }), "!x");
}

#[test]
fn expression_text_of_literals_and_groups() {
    assert_eq!(shown(&Expr::Literal(Value::Nil)), "nil");
    assert_eq!(shown(&Expr::Literal(Value::Bool(true))), "true");
    assert_eq!(shown(&Expr::Literal(Value::Bool(false))), "false");
    assert_eq!(shown(&Expr::Literal(Value::Str("hi".to_string()))), "\"hi\"");
    assert_eq!(shown(&Expr::Literal(Value::Number(Number { units: -2_500_000 }))), "-2.5");
    assert_eq!(shown(&Expr::Grouping(name("x"))), "(x)");
    assert_eq!(
        shown(&Expr::Assign { name: "a".to_string(), line: 1, value: Box::new(Expr::Grouping(one())) }),
        "a = (1)"
    );
}

#[test]
fn expression_text_is_appended() {
    let mut out: Vec<char> = vec!['>', ' '];
    push_expr(&Expr::Grouping(one()), &mut out);
    let s: String = out.into_iter().collect();
    assert_eq!(s, "> (1)");
}

#[test]
fn report_line_is_appended() {
    let mut out: Vec<char> = vec!['#'];
    push_report(42, "at end", "oops", &mut out);
    let s: String = out.into_iter().collect();
    assert_eq!(s, "#[line 42] Error at end: oops");
}

#[test]
fn scan_messages_name_cause_and_offset() {
    let e = ScanError { cause: ScanErrorType::BadChar('#'), line: 3, position: 12 };
    assert_eq!(scan_message(&e), "Unexpected character # at 12");
    assert_eq!(scan_diagnostic(&e), "[line 3] Error : Unexpected character # at 12");
    let e = ScanError {
        cause: ScanErrorType::UnterminatedString("a b".to_string()),
        line: 1,
        position: 0,
    };
    assert_eq!(scan_message(&e), "Unterminated string a b at 0");
    let e = ScanError {
        cause: ScanErrorType::NumberParseError("1.2.3".to_string(), NumeralError::Malformed),
        line: 1,
        position: 7,
    };
    assert_eq!(scan_message(&e), "Could not parse 1.2.3 as a number at 7 (invalid numeral)");
    let e = ScanError {
        cause: ScanErrorType::NumberParseError("99999999999999".to_string(), NumeralError::OutOfRange),
        line: 1,
        position: 7,
    };
    assert_eq!(
        scan_message(&e),
        "Could not parse 99999999999999 as a number at 7 (number too large)"
    );
}

#[test]
fn parse_diagnostic_names_the_token_or_the_end() {
    let e = ParseError {
        token: Some(Token {
            kind: TokenKind::Identifier,
            literal: Some(Literal::Text("foo".to_string())),
            line: 9,
            position: 100,
        }),
        message: "Expect ';' after value.".to_string(),
    };
    assert_eq!(parse_message(&e), "parser error on foo: Expect ';' after value.");
    assert_eq!(
        parse_diagnostic(&e),
        "[line 9] Error : parser error on foo: Expect ';' after value."
    );
    let e = ParseError { token: None, message: "Expect expression.".to_string() };
    assert_eq!(parse_message(&e), "parser error on None: Expect expression.");
    assert_eq!(parse_diagnostic(&e), "[line 0] Error : parser error on None: Expect expression.");
}

#[test]
fn runtime_diagnostic_names_message_line_and_expression() {
    let e = RuntimeError {
        expr: Expr::Unary { op: UnaryOp::Negate, line: 4, right: name("x") },
        line: 4,
        message: "Operand must be a number.".to_string(),
    };
    assert_eq!(runtime_diagnostic(&e), "Operand must be a number. [line 4]: -x");
}
