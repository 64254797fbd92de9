use rlox::ast::{BinaryOp, Expr, LogicalOp, Stmt, UnaryOp};
use rlox::number::Number;
use rlox::parser::{message, parse, Expected, ParseError};
use rlox::scanner::scan;
use rlox::token::{Literal, Token, TokenKind};
use rlox::value::Value;

fn parse_source(source: &str) -> Result<Vec<Stmt>, Vec<ParseError>> {
    parse(&scan(source).unwrap())
}

fn num(n: i64) -> Expr {
    Expr::Literal(Value::Number(Number { units: n * 1_000_000 }))
}

fn var(name: &str) -> Expr {
    Expr::Variable { name: name.to_string(), line: 1 }
}

fn bin(left: Expr, op: BinaryOp, right: Expr) -> Expr {
    Expr::Binary { left: Box::new(left), op, line: 1, right: Box::new(right) }
}

fn only_expression(source: &str) -> Expr {
    let mut statements = parse_source(source).unwrap();
    assert_eq!(statements.len(), 1);
    match statements.remove(0) {
        Stmt::Expression(e) => e,
        other => panic!("expected an expression statement, got {:?}", other),
    }
}

fn only_error(source: &str) -> ParseError {
    let mut errors = parse_source(source).unwrap_err();
    assert_eq!(errors.len(), 1);
    errors.remove(0)
}

fn token_at(kind: TokenKind, line: u32, position: usize) -> Option<Token> {
    Some(Token { kind, literal: None, line, position })
}

#[test]
fn statement_count_equals_top_level_statements() {
    let statements = parse_source("var a = 1; print a;").unwrap();
    assert_eq!(statements.len(), 2);
    assert_eq!(
        statements,
        vec![
            Stmt::Var { name: "a".to_string(), initializer: Some(num(1)) },
            Stmt::Print(var("a")),
        ]
    );
}

#[test]
fn empty_program_has_no_statements() {
    assert_eq!(parse_source(""), Ok(vec![]));
    assert_eq!(parse(&vec![]), Ok(vec![]));
}

#[test]
fn a_block_is_one_top_level_statement() {
    let statements = parse_source("{ var a = 1; print a; { a = 2; } } print 3;").unwrap();
    assert_eq!(statements.len(), 2);
    assert_eq!(
        statements[0],
        Stmt::Block(vec![
            Stmt::Var { name: "a".to_string(), initializer: Some(num(1)) },
            Stmt::Print(var("a")),
            Stmt::Block(vec![Stmt::Expression(Expr::Assign {
                name: "a".to_string(),
                line: 1,
                value: Box::new(num(2))
            })]),
        ])
    );
}

#[test]
fn two_errors_in_different_statements_are_both_reported() {
    let errors = parse_source("var = 1; print 2 2; print 3;").unwrap_err();
    assert_eq!(errors.len(), 2);
    assert_eq!(
        errors[0],
        ParseError {
            token: token_at(TokenKind::Equal, 1, 4),
            message: "Expect variable name.".to_string()
        }
    );
    assert_eq!(
        errors[1],
        ParseError {
            token: Some(Token {
                kind: TokenKind::Number,
                literal: Some(Literal::Number(Number { units: 2_000_000 })),
                line: 1,
                position: 17
            }),
            message: "Expect ';' after value.".to_string()
        }
    );
}

#[test]
fn errors_on_different_lines_carry_their_lines() {
    let errors = parse_source("print ;\nvar x = 1;\nprint (2;\nprint x;").unwrap_err();
    assert_eq!(errors.len(), 2);
    assert_eq!(errors[0].token, token_at(TokenKind::Semicolon, 1, 6));
    assert_eq!(errors[0].message, "Expect expression.");
    assert_eq!(errors[1].token, token_at(TokenKind::Semicolon, 3, 27));
    assert_eq!(errors[1].message, "Expect ')' after expression.");
}

#[test]
fn one_error_leaves_the_other_statements_unreported() {
    let errors = parse_source("print 1; print ; print 2;").unwrap_err();
    assert_eq!(errors.len(), 1);
}

#[test]
fn product_binds_tighter_than_sum() {
    assert_eq!(
        only_expression("1 + 2 * 3;"),
        bin(num(1), BinaryOp::Add, bin(num(2), BinaryOp::Multiply, num(3)))
    );
    assert_eq!(
        only_expression("1 * 2 + 3;"),
        bin(bin(num(1), BinaryOp::Multiply, num(2)), BinaryOp::Add, num(3))
    );
}

#[test]
fn infix_operators_group_from_the_left() {
    assert_eq!(
        only_expression("1 - 2 - 3;"),
        bin(bin(num(1), BinaryOp::Subtract, num(2)), BinaryOp::Subtract, num(3))
    );
    assert_eq!(
        only_expression("8 / 4 / 2;"),
        bin(bin(num(8), BinaryOp::Divide, num(4)), BinaryOp::Divide, num(2))
    );
}

#[test]
fn comparison_binds_tighter_than_equality() {
    assert_eq!(
        only_expression("1 < 2 == 3 >= 4;"),
        bin(
            bin(num(1), BinaryOp::Less, num(2)),
            BinaryOp::Equal,
            bin(num(3), BinaryOp::GreaterEqual, num(4))
        )
    );
    assert_eq!(
        only_expression("1 > 2 != 3 <= 4;"),
        bin(
            bin(num(1), BinaryOp::Greater, num(2)),
            BinaryOp::NotEqual,
            bin(num(3), BinaryOp::LessEqual, num(4))
        )
    );
}

#[test]
fn and_binds_tighter_than_or() {
    assert_eq!(
        only_expression("a or b and c;"),
        Expr::Logical {
            left: Box::new(var("a")),
            op: LogicalOp::Or,
            right: Box::new(Expr::Logical {
                left: Box::new(var("b")),
                op: LogicalOp::And,
                right: Box::new(var("c"))
            })
        }
    );
}

#[test]
fn grouping_is_kept_in_the_tree() {
    assert_eq!(
        only_expression("(1 + 2) * 3;"),
        bin(
            Expr::Grouping(Box::new(bin(num(1), BinaryOp::Add, num(2)))),
            BinaryOp::Multiply,
            num(3)
        )
    );
}

#[test]
fn unary_operators_nest() {
    assert_eq!(
        only_expression("!-x;"),
        Expr::Unary {
            op: UnaryOp::Not,
            line: 1,
            right: Box::new(Expr::Unary {
                op: UnaryOp::Negate,
                line: 1,
                right: Box::new(var("x"))
            })
        }
    );
    assert_eq!(
        only_expression("1 - -2;"),
        bin(
            num(1),
            BinaryOp::Subtract,
            Expr::Unary { op: UnaryOp::Negate, line: 1, right: Box::new(num(2)) }
        )
    );
}

#[test]
fn literals_parse_to_values() {
    assert_eq!(only_expression("true;"), Expr::Literal(Value::Bool(true)));
    assert_eq!(only_expression("false;"), Expr::Literal(Value::Bool(false)));
    assert_eq!(only_expression("nil;"), Expr::Literal(Value::Nil));
    assert_eq!(only_expression("\"s\";"), Expr::Literal(Value::Str("s".to_string())));
    assert_eq!(
        only_expression("2.5;"),
        Expr::Literal(Value::Number(Number { units: 2_500_000 }))
    );
}

#[test]
fn assignment_groups_from_the_right() {
    assert_eq!(
        only_expression("a = b = 1;"),
        Expr::Assign {
            name: "a".to_string(),
            line: 1,
            value: Box::new(Expr::Assign {
                name: "b".to_string(),
                line: 1,
                value: Box::new(num(1))
            })
        }
    );
}

#[test]
fn operators_carry_their_line() {
    assert_eq!(
        only_expression("1\n+\n2;"),
        Expr::Binary { left: Box::new(num(1)), op: BinaryOp::Add, line: 2, right: Box::new(num(2)) }
    );
    assert_eq!(
        only_expression("\n\nx;"),
        Expr::Variable { name: "x".to_string(), line: 3 }
    );
}

#[test]
fn var_without_initializer() {
    assert_eq!(
        parse_source("var a;"),
        Ok(vec![Stmt::Var { name: "a".to_string(), initializer: None }])
    );
}

#[test]
fn if_with_and_without_else() {
    assert_eq!(
        parse_source("if (a) print 1; else print 2;"),
        Ok(vec![Stmt::If {
            condition: var("a"),
            then_branch: Box::new(Stmt::Print(num(1))),
            else_branch: Some(Box::new(Stmt::Print(num(2))))
        }])
    );
    assert_eq!(
        parse_source("if (a) print 1;"),
        Ok(vec![Stmt::If {
            condition: var("a"),
            then_branch: Box::new(Stmt::Print(num(1))),
            else_branch: None
        }])
    );
}

#[test]
fn else_belongs_to_the_nearest_if() {
    assert_eq!(
        parse_source("if (a) if (b) print 1; else print 2;"),
        Ok(vec![Stmt::If {
            condition: var("a"),
            then_branch: Box::new(Stmt::If {
                condition: var("b"),
                then_branch: Box::new(Stmt::Print(num(1))),
                else_branch: Some(Box::new(Stmt::Print(num(2))))
            }),
            else_branch: None
        }])
    );
}

#[test]
fn while_statement() {
    assert_eq!(
        parse_source("\nwhile (a < 3) a = a + 1;"),
        Ok(vec![Stmt::While {
            condition: Expr::Binary {
                left: Box::new(Expr::Variable { name: "a".to_string(), line: 2 }),
                op: BinaryOp::Less,
                line: 2,
                right: Box::new(num(3))
            },
            body: Box::new(Stmt::Expression(Expr::Assign {
                name: "a".to_string(),
                line: 2,
                value: Box::new(Expr::Binary {
                    left: Box::new(Expr::Variable { name: "a".to_string(), line: 2 }),
                    op: BinaryOp::Add,
                    line: 2,
                    right: Box::new(num(1))
                })
            })),
            line: 2
        }])
    );
}

#[test]
fn empty_block() {
    assert_eq!(parse_source("{}"), Ok(vec![Stmt::Block(vec![])]));
}

#[test]
fn error_expect_expression() {
    let e = only_error("print +;");
    assert_eq!(e.message, "Expect expression.");
    assert_eq!(e.token, token_at(TokenKind::Plus, 1, 6));
}

#[test]
fn error_expect_right_paren() {
    let e = only_error("(1 + 2;");
    assert_eq!(e.message, "Expect ')' after expression.");
    assert_eq!(e.token, token_at(TokenKind::Semicolon, 1, 6));
}

#[test]
fn error_expect_semicolon_after_value() {
    let e = only_error("print 1");
    assert_eq!(e.message, "Expect ';' after value.");
    assert_eq!(e.token, None);
}

#[test]
fn error_expect_semicolon_after_expression() {
    let e = only_error("1 + 2 print");
    assert_eq!(e.message, "Expect ';' after expression.");
    assert_eq!(e.token, token_at(TokenKind::Print, 1, 6));
}

#[test]
fn error_expect_variable_name() {
    let e = only_error("var 1 = 2;");
    assert_eq!(e.message, "Expect variable name.");
    assert_eq!(
        e.token,
        Some(Token {
            kind: TokenKind::Number,
            literal: Some(Literal::Number(Number { units: 1_000_000 })),
            line: 1,
            position: 4
        })
    );
}

#[test]
fn error_expect_semicolon_after_declaration() {
    let e = only_error("var a = 1 }");
    assert_eq!(e.message, "Expect ';' after variable declaration.");
    assert_eq!(e.token, token_at(TokenKind::RightBrace, 1, 10));
    let e = only_error("var a 1;");
    assert_eq!(e.message, "Expect ';' after variable declaration.");
}

#[test]
fn error_expect_right_brace() {
    let e = only_error("{ print 1;");
    assert_eq!(e.message, "Expect '}' after block.");
    assert_eq!(e.token, None);
}

#[test]
fn error_expect_left_paren_after_if() {
    let e = only_error("if a print 1;");
    assert_eq!(e.message, "Expect '(' after 'if'.");
    assert_eq!(
        e.token,
        Some(Token {
            kind: TokenKind::Identifier,
            literal: Some(Literal::Text("a".to_string())),
            line: 1,
            position: 3
        })
    );
}

#[test]
fn error_expect_right_paren_after_if_condition() {
    let e = only_error("if (a print 1;");
    assert_eq!(e.message, "Expect ')' after if condition.");
    assert_eq!(e.token, token_at(TokenKind::Print, 1, 6));
}

#[test]
fn error_expect_left_paren_after_while() {
    let e = only_error("while a print 1;");
    assert_eq!(e.message, "Expect '(' after 'while'.");
}

#[test]
fn error_expect_right_paren_after_while_condition() {
    let e = only_error("while (a print 1;");
    assert_eq!(e.message, "Expect ')' after condition.");
    assert_eq!(e.token, token_at(TokenKind::Print, 1, 9));
}

#[test]
fn error_invalid_assignment_target() {
    let e = only_error("1 + a = 2;");
    assert_eq!(e.message, "Invalid assignment target.");
    assert_eq!(e.token, token_at(TokenKind::Equal, 1, 6));
    let e = only_error("(a) = 2;");
    assert_eq!(e.message, "Invalid assignment target.");
}

#[test]
fn error_at_end_of_input_has_no_token() {
    let e = only_error("print");
    assert_eq!(e, ParseError { token: None, message: "Expect expression.".to_string() });
}

#[test]
fn unsupported_keywords_are_no_expressions() {
    let e = only_error("class;");
    assert_eq!(e.message, "Expect expression.");
    assert_eq!(e.token, token_at(TokenKind::Class, 1, 0));
}

#[test]
fn recovery_resumes_after_a_semicolon() {
    let errors = parse_source("print (1; print 2; var = 3; x + ; { print 4;").unwrap_err();
    let messages: Vec<&str> = errors.iter().map(|e| e.message.as_str()).collect();
    assert_eq!(
        messages,
        vec![
            "Expect ')' after expression.",
            "Expect variable name.",
            "Expect expression.",
            "Expect '}' after block.",
        ]
    );
}

#[test]
fn recovery_resumes_at_a_statement_keyword() {
    let errors = parse_source("1 + + 2 print 3; var 4;").unwrap_err();
    let messages: Vec<&str> = errors.iter().map(|e| e.message.as_str()).collect();
    assert_eq!(messages, vec!["Expect expression.", "Expect variable name."]);
}

#[test]
fn tokens_without_an_end_token_parse_too() {
    let mut tokens = scan("print 1;").unwrap();
    tokens.pop();
    assert_eq!(parse(&tokens), Ok(vec![Stmt::Print(num(1))]));
}

#[test]
fn a_name_token_without_its_text_is_no_expression() {
    let tokens = vec![
        Token { kind: TokenKind::Identifier, literal: None, line: 1, position: 0 },
        Token { kind: TokenKind::Semicolon, literal: None, line: 1, position: 1 },
        Token { kind: TokenKind::Eof, literal: None, line: 1, position: 2 },
    ];
    let errors = parse(&tokens).unwrap_err();
    assert_eq!(errors.len(), 1);
    assert_eq!(errors[0].message, "Expect expression.");
}

#[test]
fn every_kind_of_syntax_error_has_its_message() {
    assert_eq!(message(Expected::Expression), "Expect expression.");
    assert_eq!(message(Expected::RightParen), "Expect ')' after expression.");
    assert_eq!(message(Expected::SemicolonAfterValue), "Expect ';' after value.");
    assert_eq!(message(Expected::SemicolonAfterExpression), "Expect ';' after expression.");
    assert_eq!(message(Expected::VariableName), "Expect variable name.");
    assert_eq!(
        message(Expected::SemicolonAfterDeclaration),
        "Expect ';' after variable declaration."
    );
    assert_eq!(message(Expected::RightBrace), "Expect '}' after block.");
    assert_eq!(message(Expected::LeftParenAfterIf), "Expect '(' after 'if'.");
    assert_eq!(message(Expected::RightParenAfterIf), "Expect ')' after if condition.");
    assert_eq!(message(Expected::LeftParenAfterWhile), "Expect '(' after 'while'.");
    assert_eq!(message(Expected::RightParenAfterWhile), "Expect ')' after condition.");
    assert_eq!(message(Expected::AssignmentTarget), "Invalid assignment target.");
}
