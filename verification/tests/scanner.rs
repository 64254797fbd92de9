use rlox::number::{Number, NumeralError};
use rlox::scanner::{scan, ScanError, ScanErrorType};
use rlox::token::{Literal, Token, TokenKind};

fn kinds_of(source: &str) -> Vec<TokenKind> {
    scan(source).unwrap().iter().map(|t| t.kind).collect()
}

fn plain_token(kind: TokenKind, line: u32, position: usize) -> Token {
    Token { kind, literal: None, line, position }
}

#[test]
fn empty_source_gives_the_end_token() {
    assert_eq!(scan(""), Ok(vec![plain_token(TokenKind::Eof, 1, 0)]));
}

#[test]
fn blank_source_gives_the_end_token() {
    assert_eq!(scan(" \t\r\n  \n"), Ok(vec![plain_token(TokenKind::Eof, 3, 7)]));
}

#[test]
fn punctuation_is_one_token_each() {
    assert_eq!(
        kinds_of("(){},.-+;*/"),
        vec![
            TokenKind::LeftParen,
            TokenKind::RightParen,
            TokenKind::LeftBrace,
            TokenKind::RightBrace,
            TokenKind::Comma,
            TokenKind::Dot,
            TokenKind::Minus,
            TokenKind::Plus,
            TokenKind::Semicolon,
            TokenKind::Star,
            TokenKind::Slash,
            TokenKind::Eof,
        ]
    );
}

#[test]
fn operators_take_the_longest_match() {
    assert_eq!(
        kinds_of("! != = == < <= > >= !== =!"),
        vec![
            TokenKind::Bang,
            TokenKind::BangEqual,
            TokenKind::Equal,
            TokenKind::EqualEqual,
            TokenKind::Less,
            TokenKind::LessEqual,
            TokenKind::Greater,
            TokenKind::GreaterEqual,
            TokenKind::BangEqual,
            TokenKind::Equal,
            TokenKind::Equal,
            TokenKind::Bang,
            TokenKind::Eof,
        ]
    );
}

#[test]
fn keywords_are_recognised() {
    assert_eq!(
        kinds_of("and class else false for fun if nil or print return super this true var while"),
        vec![
            TokenKind::And,
            TokenKind::Class,
            TokenKind::Else,
            TokenKind::False,
            TokenKind::For,
            TokenKind::Fun,
            TokenKind::If,
            TokenKind::Nil,
            TokenKind::Or,
            TokenKind::Print,
            TokenKind::Return,
            TokenKind::Super,
            TokenKind::This,
            TokenKind::True,
            TokenKind::Var,
            TokenKind::While,
            TokenKind::Eof,
        ]
    );
}

#[test]
fn identifiers_carry_their_name() {
    assert_eq!(
        scan("foo _bar1 orchid classy"),
        Ok(vec![
            Token {
                kind: TokenKind::Identifier,
                literal: Some(Literal::Text("foo".to_string())),
                line: 1,
                position: 0
            },
            Token {
                kind: TokenKind::Identifier,
                literal: Some(Literal::Text("_bar1".to_string())),
                line: 1,
                position: 4
            },
            Token {
                kind: TokenKind::Identifier,
                literal: Some(Literal::Text("orchid".to_string())),
                line: 1,
                position: 10
            },
            Token {
                kind: TokenKind::Identifier,
                literal: Some(Literal::Text("classy".to_string())),
                line: 1,
                position: 17
            },
            plain_token(TokenKind::Eof, 1, 23),
        ])
    );
}

#[test]
fn keywords_are_case_sensitive() {
    assert_eq!(
        kinds_of("And VAR nil Nil"),
        vec![
            TokenKind::Identifier,
            TokenKind::Identifier,
            TokenKind::Nil,
            TokenKind::Identifier,
            TokenKind::Eof
        ]
    );
}

#[test]
fn strings_carry_their_content() {
    assert_eq!(
        scan("\"hi there\""),
        Ok(vec![
            Token {
                kind: TokenKind::Str,
                literal: Some(Literal::Text("hi there".to_string())),
                line: 1,
                position: 0
            },
            plain_token(TokenKind::Eof, 1, 10),
        ])
    );
    assert_eq!(
        scan("\"\""),
        Ok(vec![
            Token {
                kind: TokenKind::Str,
                literal: Some(Literal::Text(String::new())),
                line: 1,
                position: 0
            },
            plain_token(TokenKind::Eof, 1, 2),
        ])
    );
}

#[test]
fn strings_may_span_lines() {
    assert_eq!(
        scan("\"a\nb\n\" x"),
        Ok(vec![
            Token {
                kind: TokenKind::Str,
                literal: Some(Literal::Text("a\nb\n".to_string())),
                line: 1,
                position: 0
            },
            Token {
                kind: TokenKind::Identifier,
                literal: Some(Literal::Text("x".to_string())),
                line: 3,
                position: 7
            },
            plain_token(TokenKind::Eof, 3, 8),
        ])
    );
}

#[test]
fn positions_count_characters_not_bytes() {
    assert_eq!(
        scan("\"é\" x"),
        Ok(vec![
            Token {
                kind: TokenKind::Str,
                literal: Some(Literal::Text("é".to_string())),
                line: 1,
                position: 0
            },
            Token {
                kind: TokenKind::Identifier,
                literal: Some(Literal::Text("x".to_string())),
                line: 1,
                position: 4
            },
            plain_token(TokenKind::Eof, 1, 5),
        ])
    );
}

#[test]
fn numerals_carry_their_value() {
    assert_eq!(
        scan("12.5 7 3.1415926535"),
        Ok(vec![
            Token {
                kind: TokenKind::Number,
                literal: Some(Literal::Number(Number { units: 12_500_000 })),
                line: 1,
                position: 0
            },
            Token {
                kind: TokenKind::Number,
                literal: Some(Literal::Number(Number { units: 7_000_000 })),
                line: 1,
                position: 5
            },
            Token {
                kind: TokenKind::Number,
                literal: Some(Literal::Number(Number { units: 3_141_592 })),
                line: 1,
                position: 7
            },
            plain_token(TokenKind::Eof, 1, 19),
        ])
    );
}

#[test]
fn a_point_before_digits_is_a_dot_token() {
    assert_eq!(kinds_of(".5"), vec![TokenKind::Dot, TokenKind::Number, TokenKind::Eof]);
}

#[test]
fn a_numeral_ends_where_a_letter_starts() {
    assert_eq!(kinds_of("12abc"), vec![TokenKind::Number, TokenKind::Identifier, TokenKind::Eof]);
}

#[test]
fn comments_run_to_the_end_of_the_line() {
    assert_eq!(
        scan("a // b \" 1.2.3 @\nc // d"),
        Ok(vec![
            Token {
                kind: TokenKind::Identifier,
                literal: Some(Literal::Text("a".to_string())),
                line: 1,
                position: 0
            },
            Token {
                kind: TokenKind::Identifier,
                literal: Some(Literal::Text("c".to_string())),
                line: 2,
                position: 17
            },
            plain_token(TokenKind::Eof, 2, 23),
        ])
    );
}

#[test]
fn a_single_slash_is_a_token() {
    assert_eq!(
        kinds_of("a / b"),
        vec![TokenKind::Identifier, TokenKind::Slash, TokenKind::Identifier, TokenKind::Eof]
    );
}

#[test]
fn lines_are_counted_from_one() {
    let tokens = scan("a\nb\n\nc").unwrap();
    let lines: Vec<u32> = tokens.iter().map(|t| t.line).collect();
    assert_eq!(lines, vec![1, 2, 4, 4]);
    let positions: Vec<usize> = tokens.iter().map(|t| t.position).collect();
    assert_eq!(positions, vec![0, 2, 5, 6]);
}

#[test]
fn valid_source_never_fails() {
    let source = "var a = 1.5;\nvar b = \"two\nlines\";\n// note\nif (a >= 2 and !b) { print a / 3; } else print nil;";
    let tokens = scan(source).unwrap();
    assert_eq!(tokens.len(), 31);
    assert_eq!(tokens[tokens.len() - 1], plain_token(TokenKind::Eof, 5, source.chars().count()));
}

#[test]
fn unterminated_string_fails_at_its_opening_line() {
    assert_eq!(
        scan("var a = \"abc"),
        Err(ScanError {
            cause: ScanErrorType::UnterminatedString("abc".to_string()),
            line: 1,
            position: 8
        })
    );
    assert_eq!(
        scan("a;\nb;\n\"never\nclosed\n"),
        Err(ScanError {
            cause: ScanErrorType::UnterminatedString("never\nclosed\n".to_string()),
            line: 3,
            position: 6
        })
    );
    assert_eq!(
        scan("\""),
        Err(ScanError {
            cause: ScanErrorType::UnterminatedString(String::new()),
            line: 1,
            position: 0
        })
    );
}

#[test]
fn malformed_number_fails_with_its_text() {
    assert_eq!(
        scan("12.34.56"),
        Err(ScanError {
            cause: ScanErrorType::NumberParseError("12.34.56".to_string(), NumeralError::Malformed),
            line: 1,
            position: 0
        })
    );
    assert_eq!(
        scan("x =\n 1..2;"),
        Err(ScanError {
            cause: ScanErrorType::NumberParseError("1..2".to_string(), NumeralError::Malformed),
            line: 2,
            position: 5
        })
    );
}

#[test]
fn number_out_of_range_fails_with_its_text() {
    assert_eq!(
        scan("print 9223372036855;"),
        Err(ScanError {
            cause: ScanErrorType::NumberParseError(
                "9223372036855".to_string(),
                NumeralError::OutOfRange
            ),
            line: 1,
            position: 6
        })
    );
}

#[test]
fn bad_character_fails() {
    assert_eq!(
        scan("a\n @ b"),
        Err(ScanError { cause: ScanErrorType::BadChar('@'), line: 2, position: 3 })
    );
    assert_eq!(
        scan("é"),
        Err(ScanError { cause: ScanErrorType::BadChar('é'), line: 1, position: 0 })
    );
}

#[test]
fn scanning_stops_at_the_first_error() {
    assert_eq!(
        scan("# 1.2.3 \"open"),
        Err(ScanError { cause: ScanErrorType::BadChar('#'), line: 1, position: 0 })
    );
}

#[test]
fn step_reports_one_lexeme() {
    let chars: Vec<char> = "ab  cd".chars().collect();
    let first = rlox::scanner::step(&chars, 0, 1);
    match first {
        rlox::scanner::Step::Emit { token, next, line } => {
            assert_eq!(token.kind, TokenKind::Identifier);
            assert_eq!(token.literal, Some(Literal::Text("ab".to_string())));
            assert_eq!(next, 2);
            assert_eq!(line, 1);
        }
        _ => panic!("expected a token"),
    }
    assert!(matches!(rlox::scanner::step(&chars, 2, 1), rlox::scanner::Step::Skip { next: 3, line: 1 }));
    assert!(matches!(rlox::scanner::step(&chars, 6, 1), rlox::scanner::Step::Done));
}
