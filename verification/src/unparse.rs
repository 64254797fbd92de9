//! The tokens that a tree is written with, and the proof that the parser
//! loses nothing and invents nothing: what it gives is written with exactly
//! the tokens that it took.

use vstd::prelude::*;
use crate::ast::{BinaryOp, LogicalOp, SpecExpr, SpecStmt, UnaryOp};
use crate::parser::{
    block_items_at, combine, condition_at, declaration_at, expression_at, infix_at, kind_at,
    lemma_consumes, level_at, level_rank, level_rest_at, line_at, parsed, primary_at,
    program_from, recovery_point, remaining, statement_at, text_at, unary_at, Expected,
};
use crate::token::{SpecLiteral, SpecToken, TokenKind};
use crate::value::SpecValue;

verus! {

/// What a token says apart from its place: its kind and, for a name, a
/// string or a numeral, what it carries.
pub struct Lexeme {
    pub kind: TokenKind,
    pub literal: Option<SpecLiteral>,
}

/// The lexeme of a token.
pub open spec fn lexeme_of(t: SpecToken) -> Lexeme {
    Lexeme {
        kind: t.kind,
        literal: if t.kind == TokenKind::Identifier || t.kind == TokenKind::Str || t.kind
            == TokenKind::Number {
            t.literal
        } else {
            None
        },
    }
}

/// The lexemes of a sequence of tokens.
pub open spec fn lexemes(ts: Seq<SpecToken>) -> Seq<Lexeme> {
    Seq::new(ts.len(), |i: int| lexeme_of(ts[i]))
}

/// The lexeme of a keyword or of a punctuation mark.
pub open spec fn word(kind: TokenKind) -> Lexeme {
    Lexeme { kind, literal: None }
}

/// The lexeme of a name.
pub open spec fn name_lexeme(name: Seq<char>) -> Lexeme {
    Lexeme { kind: TokenKind::Identifier, literal: Some(SpecLiteral::Text(name)) }
}

/// The lexeme that denotes a value.
pub open spec fn value_lexeme(v: SpecValue) -> Lexeme {
    match v {
        SpecValue::Nil => word(TokenKind::Nil),
        SpecValue::Bool(true) => word(TokenKind::True),
        SpecValue::Bool(false) => word(TokenKind::False),
        SpecValue::Number(n) => Lexeme {
            kind: TokenKind::Number,
            literal: Some(SpecLiteral::Number(n)),
        },
        SpecValue::Str(s) => Lexeme { kind: TokenKind::Str, literal: Some(SpecLiteral::Text(s)) },
    }
}

/// The kind of the token that denotes a prefix operator.
pub open spec fn unary_kind(op: UnaryOp) -> TokenKind {
    match op {
        UnaryOp::Negate => TokenKind::Minus,
        UnaryOp::Not => TokenKind::Bang,
    }
}

/// The kind of the token that denotes an arithmetic, comparison or equality
/// operator.
pub open spec fn binary_kind(op: BinaryOp) -> TokenKind {
    match op {
        BinaryOp::Add => TokenKind::Plus,
        BinaryOp::Subtract => TokenKind::Minus,
        BinaryOp::Multiply => TokenKind::Star,
        BinaryOp::Divide => TokenKind::Slash,
        BinaryOp::Greater => TokenKind::Greater,
        BinaryOp::GreaterEqual => TokenKind::GreaterEqual,
        BinaryOp::Less => TokenKind::Less,
        BinaryOp::LessEqual => TokenKind::LessEqual,
        BinaryOp::Equal => TokenKind::EqualEqual,
        BinaryOp::NotEqual => TokenKind::BangEqual,
    }
}

/// The kind of the token that denotes a short-circuit operator.
pub open spec fn logical_kind(op: LogicalOp) -> TokenKind {
    match op {
        LogicalOp::And => TokenKind::And,
        LogicalOp::Or => TokenKind::Or,
    }
}

/// The lexemes that an expression is written with.
pub open spec fn expr_lexemes(e: SpecExpr) -> Seq<Lexeme>
    decreases e,
{
    match e {
        SpecExpr::Literal(v) => seq![value_lexeme(v)],
        SpecExpr::Grouping(inner) => seq![word(TokenKind::LeftParen)] + expr_lexemes(*inner)
            + seq![word(TokenKind::RightParen)],
        SpecExpr::Unary { op, line, right } => seq![word(unary_kind(op))] + expr_lexemes(*right),
        SpecExpr::Binary { left, op, line, right } => expr_lexemes(*left) + seq![
            word(binary_kind(op)),
        ] + expr_lexemes(*right),
        SpecExpr::Logical { left, op, right } => expr_lexemes(*left) + seq![
            word(logical_kind(op)),
        ] + expr_lexemes(*right),
        SpecExpr::Variable { name, line } => seq![name_lexeme(name)],
        SpecExpr::Assign { name, line, value } => seq![
            name_lexeme(name),
            word(TokenKind::Equal),
        ] + expr_lexemes(*value),
    }
}

/// The lexemes that a statement is written with.
pub open spec fn stmt_lexemes(s: SpecStmt) -> Seq<Lexeme>
    decreases s, 0nat,
{
    match s {
        SpecStmt::Expression(e) => expr_lexemes(e) + seq![word(TokenKind::Semicolon)],
        SpecStmt::Print(e) => seq![word(TokenKind::Print)] + expr_lexemes(e) + seq![
            word(TokenKind::Semicolon),
        ],
        SpecStmt::Var { name, initializer } => match initializer {
            None => seq![word(TokenKind::Var), name_lexeme(name), word(TokenKind::Semicolon)],
            Some(e) => seq![word(TokenKind::Var), name_lexeme(name), word(TokenKind::Equal)]
                + expr_lexemes(e) + seq![word(TokenKind::Semicolon)],
        },
        SpecStmt::Block(items) => seq![word(TokenKind::LeftBrace)] + items_lexemes(items, 0)
            + seq![word(TokenKind::RightBrace)],
        SpecStmt::If { condition, then_branch, else_branch } => {
            let head = seq![word(TokenKind::If), word(TokenKind::LeftParen)] + expr_lexemes(
                condition,
            ) + seq![word(TokenKind::RightParen)] + stmt_lexemes(*then_branch);
            match else_branch {
                None => head,
                Some(other) => head + seq![word(TokenKind::Else)] + stmt_lexemes(*other),
            }
        },
        SpecStmt::While { condition, body, line } => seq![
            word(TokenKind::While),
            word(TokenKind::LeftParen),
        ] + expr_lexemes(condition) + seq![word(TokenKind::RightParen)] + stmt_lexemes(*body),
    }
}

/// The lexemes that the statements from the `i`-th on are written with, one
/// statement after the other.
pub open spec fn items_lexemes(items: Seq<SpecStmt>, i: nat) -> Seq<Lexeme>
    decreases items, items.len() - i,
{
    if i >= items.len() {
        Seq::empty()
    } else {
        stmt_lexemes(items[i as int]) + items_lexemes(items, i + 1)
    }
}

/// Whether the `n` tokens from `pos` on are the lexemes `l`.
pub open spec fn covers(ts: Seq<SpecToken>, pos: nat, n: nat, l: Seq<Lexeme>) -> bool {
    pos + n <= ts.len() && lexemes(ts).subrange(pos as int, (pos + n) as int) == l
}

pub proof fn lemma_cover_join(
    ts: Seq<SpecToken>,
    pos: nat,
    a: nat,
    b: nat,
    first: Seq<Lexeme>,
    second: Seq<Lexeme>,
)
    requires
        covers(ts, pos, a, first),
        covers(ts, pos + a, b, second),
    ensures
        covers(ts, pos, a + b, first + second),
{
    let l = lexemes(ts);
    assert(l.subrange(pos as int, (pos + a + b) as int) =~= l.subrange(
        pos as int,
        (pos + a) as int,
    ) + l.subrange((pos + a) as int, (pos + a + b) as int));
}

pub proof fn lemma_cover_one(ts: Seq<SpecToken>, pos: nat)
    requires
        pos < ts.len(),
    ensures
        covers(ts, pos, 1, seq![lexeme_of(ts[pos as int])]),
{
    assert(lexemes(ts).subrange(pos as int, (pos + 1) as int) =~= seq![lexeme_of(ts[pos as int])]);
}

proof fn lemma_items_shift(first: SpecStmt, rest: Seq<SpecStmt>, i: nat)
    ensures
        items_lexemes(seq![first] + rest, i + 1) == items_lexemes(rest, i),
    decreases rest.len() - i,
{
    let all = seq![first] + rest;
    if i < rest.len() {
        lemma_items_shift(first, rest, i + 1);
        assert(all[(i + 1) as int] == rest[i as int]);
    }
}

proof fn lemma_primary_sound(ts: Seq<SpecToken>, pos: nat)
    ensures
        match primary_at(ts, pos) {
            Ok((e, n)) => covers(ts, pos, n, expr_lexemes(e)),
            Err(_) => true,
        },
    decreases remaining(ts, pos), 0nat,
{
    if let Ok((e, n)) = primary_at(ts, pos) {
        lemma_cover_one(ts, pos);
        if kind_at(ts, pos) == TokenKind::LeftParen {
            lemma_expression_sound(ts, pos + 1);
            let (inner, m) = expression_at(ts, pos + 1)->Ok_0;
            lemma_cover_one(ts, pos + 1 + m);
            lemma_cover_join(ts, pos, 1, m, seq![word(TokenKind::LeftParen)], expr_lexemes(inner));
            lemma_cover_join(
                ts,
                pos,
                1 + m,
                1,
                seq![word(TokenKind::LeftParen)] + expr_lexemes(inner),
                seq![word(TokenKind::RightParen)],
            );
        }
    }
}

proof fn lemma_unary_sound(ts: Seq<SpecToken>, pos: nat)
    ensures
        match unary_at(ts, pos) {
            Ok((e, n)) => covers(ts, pos, n, expr_lexemes(e)),
            Err(_) => true,
        },
    decreases remaining(ts, pos), 1nat,
{
    let kind = kind_at(ts, pos);
    if kind == TokenKind::Bang || kind == TokenKind::Minus {
        lemma_unary_sound(ts, pos + 1);
        if let Ok((right, n)) = unary_at(ts, pos + 1) {
            lemma_cover_one(ts, pos);
            lemma_cover_join(ts, pos, 1, n, seq![word(kind)], expr_lexemes(right));
        }
    } else {
        lemma_primary_sound(ts, pos);
    }
}

proof fn lemma_level_sound(ts: Seq<SpecToken>, pos: nat, level: nat)
    ensures
        match level_at(ts, pos, level) {
            Ok((e, n)) => covers(ts, pos, n, expr_lexemes(e)),
            Err(_) => true,
        },
    decreases remaining(ts, pos), level_rank(level),
{
    if level >= 6 {
        lemma_unary_sound(ts, pos);
    } else {
        lemma_level_sound(ts, pos, level + 1);
        if let Ok((left, n)) = level_at(ts, pos, level + 1) {
            lemma_level_rest_sound(ts, pos, pos + n, level, left);
        }
    }
}

proof fn lemma_level_rest_sound(ts: Seq<SpecToken>, start: nat, pos: nat, level: nat, left: SpecExpr)
    requires
        start <= pos,
        covers(ts, start, (pos - start) as nat, expr_lexemes(left)),
    ensures
        match level_rest_at(ts, pos, level, left) {
            Ok((e, m)) => covers(ts, start, (pos - start + m) as nat, expr_lexemes(e)),
            Err(_) => true,
        },
    decreases remaining(ts, pos), (level_rank(level) - 1) as nat,
{
    if let Some(op) = infix_at(kind_at(ts, pos), level) {
        lemma_level_sound(ts, pos + 1, level + 1);
        if let Ok((right, n)) = level_at(ts, pos + 1, level + 1) {
            let joined = combine(left, op, line_at(ts, pos), right);
            let mark = seq![word(kind_at(ts, pos))];
            lemma_cover_one(ts, pos);
            lemma_cover_join(ts, start, (pos - start) as nat, 1, expr_lexemes(left), mark);
            lemma_cover_join(
                ts,
                start,
                (pos - start + 1) as nat,
                n,
                expr_lexemes(left) + mark,
                expr_lexemes(right),
            );
            assert(expr_lexemes(joined) == expr_lexemes(left) + mark + expr_lexemes(right));
            lemma_level_rest_sound(ts, start, pos + 1 + n, level, joined);
        }
    }
}

proof fn lemma_expression_sound(ts: Seq<SpecToken>, pos: nat)
    ensures
        match expression_at(ts, pos) {
            Ok((e, n)) => covers(ts, pos, n, expr_lexemes(e)),
            Err(_) => true,
        },
    decreases remaining(ts, pos), 20nat,
{
    lemma_level_sound(ts, pos, 0);
    if let Ok((left, n)) = level_at(ts, pos, 0) {
        if kind_at(ts, pos + n) == TokenKind::Equal {
            lemma_expression_sound(ts, pos + n + 1);
            if let Ok((value, m)) = expression_at(ts, pos + n + 1) {
                if let SpecExpr::Variable { name, line } = left {
                    let target = seq![name_lexeme(name)];
                    let mark = seq![word(TokenKind::Equal)];
                    assert(n == 1) by {
                        assert(lexemes(ts).subrange(pos as int, (pos + n) as int).len() == target.len());
                    }
                    lemma_cover_one(ts, pos + n);
                    lemma_cover_join(ts, pos, n, 1, target, mark);
                    lemma_cover_join(ts, pos, n + 1, m, target + mark, expr_lexemes(value));
                    assert(target + mark =~= seq![name_lexeme(name), word(TokenKind::Equal)]);
                }
            }
        }
    }
}

proof fn lemma_condition_sound(ts: Seq<SpecToken>, pos: nat, open: Expected, close: Expected)
    ensures
        match condition_at(ts, pos, open, close) {
            Ok((e, n)) => covers(
                ts,
                pos,
                n,
                seq![word(TokenKind::LeftParen)] + expr_lexemes(e) + seq![
                    word(TokenKind::RightParen),
                ],
            ),
            Err(_) => true,
        },
{
    if kind_at(ts, pos) == TokenKind::LeftParen {
        lemma_expression_sound(ts, pos + 1);
        if let Ok((e, m)) = expression_at(ts, pos + 1) {
            if kind_at(ts, pos + 1 + m) == TokenKind::RightParen {
                lemma_cover_one(ts, pos);
                lemma_cover_one(ts, pos + 1 + m);
                lemma_cover_join(ts, pos, 1, m, seq![word(TokenKind::LeftParen)], expr_lexemes(e));
                lemma_cover_join(
                    ts,
                    pos,
                    1 + m,
                    1,
                    seq![word(TokenKind::LeftParen)] + expr_lexemes(e),
                    seq![word(TokenKind::RightParen)],
                );
            }
        }
    }
}

/// After a keyword, a condition in parentheses and a statement: the lexemes
/// of the three together.
proof fn lemma_cover_headed(
    ts: Seq<SpecToken>,
    pos: nat,
    keyword: TokenKind,
    condition: SpecExpr,
    n: nat,
    body: Seq<Lexeme>,
    m: nat,
)
    requires
        pos < ts.len(),
        lexeme_of(ts[pos as int]) == word(keyword),
        covers(
            ts,
            pos + 1,
            n,
            seq![word(TokenKind::LeftParen)] + expr_lexemes(condition) + seq![
                word(TokenKind::RightParen),
            ],
        ),
        covers(ts, pos + 1 + n, m, body),
    ensures
        covers(
            ts,
            pos,
            1 + n + m,
            seq![word(keyword), word(TokenKind::LeftParen)] + expr_lexemes(condition) + seq![
                word(TokenKind::RightParen),
            ] + body,
        ),
{
    let parens = seq![word(TokenKind::LeftParen)] + expr_lexemes(condition) + seq![
        word(TokenKind::RightParen),
    ];
    lemma_cover_one(ts, pos);
    lemma_cover_join(ts, pos, 1, n, seq![word(keyword)], parens);
    lemma_cover_join(ts, pos, 1 + n, m, seq![word(keyword)] + parens, body);
    assert(seq![word(keyword)] + parens + body =~= seq![
        word(keyword),
        word(TokenKind::LeftParen),
    ] + expr_lexemes(condition) + seq![word(TokenKind::RightParen)] + body);
}

#[verifier::rlimit(40)]
proof fn lemma_statement_sound(ts: Seq<SpecToken>, pos: nat)
    ensures
        match statement_at(ts, pos) {
            Ok((s, n)) => covers(ts, pos, n, stmt_lexemes(s)),
            Err(_) => true,
        },
    decreases remaining(ts, pos), 30nat,
{
    let kind = kind_at(ts, pos);
    if statement_at(ts, pos) is Ok {
        if kind == TokenKind::Print {
            lemma_expression_sound(ts, pos + 1);
            let (e, n) = expression_at(ts, pos + 1)->Ok_0;
            lemma_cover_one(ts, pos);
            lemma_cover_one(ts, pos + 1 + n);
            lemma_cover_join(ts, pos, 1, n, seq![word(TokenKind::Print)], expr_lexemes(e));
            lemma_cover_join(
                ts,
                pos,
                1 + n,
                1,
                seq![word(TokenKind::Print)] + expr_lexemes(e),
                seq![word(TokenKind::Semicolon)],
            );
        } else if kind == TokenKind::LeftBrace {
            lemma_block_items_sound(ts, pos + 1);
            let (items, n) = block_items_at(ts, pos + 1)->Ok_0;
            lemma_cover_one(ts, pos);
            lemma_cover_join(
                ts,
                pos,
                1,
                n,
                seq![word(TokenKind::LeftBrace)],
                items_lexemes(items, 0) + seq![word(TokenKind::RightBrace)],
            );
            assert(seq![word(TokenKind::LeftBrace)] + (items_lexemes(items, 0) + seq![
                word(TokenKind::RightBrace),
            ]) =~= seq![word(TokenKind::LeftBrace)] + items_lexemes(items, 0) + seq![
                word(TokenKind::RightBrace),
            ]);
        } else if kind == TokenKind::If {
            lemma_condition_sound(
                ts,
                pos + 1,
                Expected::LeftParenAfterIf,
                Expected::RightParenAfterIf,
            );
            let (condition, n) = condition_at(
                ts,
                pos + 1,
                Expected::LeftParenAfterIf,
                Expected::RightParenAfterIf,
            )->Ok_0;
            lemma_statement_sound(ts, pos + 1 + n);
            let (then_branch, m) = statement_at(ts, pos + 1 + n)->Ok_0;
            lemma_cover_headed(ts, pos, TokenKind::If, condition, n, stmt_lexemes(then_branch), m);
            let head = seq![word(TokenKind::If), word(TokenKind::LeftParen)] + expr_lexemes(condition)
                + seq![word(TokenKind::RightParen)] + stmt_lexemes(then_branch);
            if kind_at(ts, pos + 1 + n + m) == TokenKind::Else {
                lemma_statement_sound(ts, pos + 2 + n + m);
                let (other, k) = statement_at(ts, pos + 2 + n + m)->Ok_0;
                lemma_cover_one(ts, pos + 1 + n + m);
                lemma_cover_join(ts, pos, 1 + n + m, 1, head, seq![word(TokenKind::Else)]);
                lemma_cover_join(
                    ts,
                    pos,
                    2 + n + m,
                    k,
                    head + seq![word(TokenKind::Else)],
                    stmt_lexemes(other),
                );
            }
        } else if kind == TokenKind::While {
            lemma_condition_sound(
                ts,
                pos + 1,
                Expected::LeftParenAfterWhile,
                Expected::RightParenAfterWhile,
            );
            let (condition, n) = condition_at(
                ts,
                pos + 1,
                Expected::LeftParenAfterWhile,
                Expected::RightParenAfterWhile,
            )->Ok_0;
            lemma_statement_sound(ts, pos + 1 + n);
            let (body, m) = statement_at(ts, pos + 1 + n)->Ok_0;
            lemma_cover_headed(ts, pos, TokenKind::While, condition, n, stmt_lexemes(body), m);
        } else {
            lemma_expression_sound(ts, pos);
            let (e, n) = expression_at(ts, pos)->Ok_0;
            lemma_cover_one(ts, pos + n);
            lemma_cover_join(ts, pos, n, 1, expr_lexemes(e), seq![word(TokenKind::Semicolon)]);
        }
    }
}

#[verifier::rlimit(40)]
proof fn lemma_declaration_sound(ts: Seq<SpecToken>, pos: nat)
    ensures
        match declaration_at(ts, pos) {
            Ok((s, n)) => covers(ts, pos, n, stmt_lexemes(s)),
            Err(_) => true,
        },
    decreases remaining(ts, pos), 31nat,
{
    if declaration_at(ts, pos) is Ok {
        if kind_at(ts, pos) == TokenKind::Var {
            let name = text_at(ts, pos + 1)->0;
            let head = seq![word(TokenKind::Var), name_lexeme(name)];
            lemma_cover_one(ts, pos);
            lemma_cover_one(ts, pos + 1);
            lemma_cover_one(ts, pos + 2);
            lemma_cover_join(ts, pos, 1, 1, seq![word(TokenKind::Var)], seq![name_lexeme(name)]);
            assert(seq![word(TokenKind::Var)] + seq![name_lexeme(name)] =~= head);
            if kind_at(ts, pos + 2) == TokenKind::Equal {
                lemma_expression_sound(ts, pos + 3);
                let (e, n) = expression_at(ts, pos + 3)->Ok_0;
                lemma_cover_one(ts, pos + 3 + n);
                lemma_cover_join(ts, pos, 2, 1, head, seq![word(TokenKind::Equal)]);
                assert(head + seq![word(TokenKind::Equal)] =~= seq![
                    word(TokenKind::Var),
                    name_lexeme(name),
                    word(TokenKind::Equal),
                ]);
                lemma_cover_join(
                    ts,
                    pos,
                    3,
                    n,
                    seq![word(TokenKind::Var), name_lexeme(name), word(TokenKind::Equal)],
                    expr_lexemes(e),
                );
                lemma_cover_join(
                    ts,
                    pos,
                    3 + n,
                    1,
                    seq![word(TokenKind::Var), name_lexeme(name), word(TokenKind::Equal)]
                        + expr_lexemes(e),
                    seq![word(TokenKind::Semicolon)],
                );
            } else {
                lemma_cover_join(ts, pos, 2, 1, head, seq![word(TokenKind::Semicolon)]);
                assert(head + seq![word(TokenKind::Semicolon)] =~= seq![
                    word(TokenKind::Var),
                    name_lexeme(name),
                    word(TokenKind::Semicolon),
                ]);
            }
        } else {
            lemma_statement_sound(ts, pos);
        }
    }
}

proof fn lemma_block_items_sound(ts: Seq<SpecToken>, pos: nat)
    ensures
        match block_items_at(ts, pos) {
            Ok((items, n)) => covers(
                ts,
                pos,
                n,
                items_lexemes(items, 0) + seq![word(TokenKind::RightBrace)],
            ),
            Err(_) => true,
        },
    decreases remaining(ts, pos), 32nat,
{
    let kind = kind_at(ts, pos);
    if block_items_at(ts, pos) is Ok {
        if kind == TokenKind::RightBrace {
            lemma_cover_one(ts, pos);
            assert(items_lexemes(Seq::<SpecStmt>::empty(), 0) + seq![word(TokenKind::RightBrace)]
                =~= seq![word(TokenKind::RightBrace)]);
        } else {
            lemma_declaration_sound(ts, pos);
            let (first, n) = declaration_at(ts, pos)->Ok_0;
            lemma_block_items_sound(ts, pos + n);
            let (rest, m) = block_items_at(ts, pos + n)->Ok_0;
            let tail = items_lexemes(rest, 0) + seq![word(TokenKind::RightBrace)];
            lemma_cover_join(ts, pos, n, m, stmt_lexemes(first), tail);
            lemma_items_shift(first, rest, 0);
            assert((seq![first] + rest)[0] == first);
            assert(stmt_lexemes(first) + tail =~= items_lexemes(seq![first] + rest, 0) + seq![
                word(TokenKind::RightBrace),
            ]);
        }
    }
}

/// What a rule parses is written with the tokens that it took: the lexemes of
/// those tokens are the lexemes of the expression or the statement.
pub proof fn lemma_rules_sound(ts: Seq<SpecToken>, pos: nat)
    ensures
        match expression_at(ts, pos) {
            Ok((e, n)) => covers(ts, pos, n, expr_lexemes(e)),
            Err(_) => true,
        },
        match declaration_at(ts, pos) {
            Ok((s, n)) => covers(ts, pos, n, stmt_lexemes(s)),
            Err(_) => true,
        },
{
    lemma_expression_sound(ts, pos);
    lemma_declaration_sound(ts, pos);
}

proof fn lemma_program_sound(ts: Seq<SpecToken>, pos: nat) -> (end: nat)
    requires
        pos <= ts.len(),
        program_from(ts, pos).1.len() == 0,
    ensures
        pos <= end <= ts.len(),
        kind_at(ts, end) == TokenKind::Eof,
        covers(ts, pos, (end - pos) as nat, items_lexemes(program_from(ts, pos).0, 0)),
    decreases remaining(ts, pos),
{
    reveal(program_from);
    if kind_at(ts, pos) == TokenKind::Eof {
        assert(lexemes(ts).subrange(pos as int, pos as int) =~= Seq::<Lexeme>::empty());
        pos
    } else {
        lemma_consumes(ts, pos);
        lemma_declaration_sound(ts, pos);
        match declaration_at(ts, pos) {
            Ok((s, n)) => {
                let rest = program_from(ts, pos + n);
                let end = lemma_program_sound(ts, pos + n);
                lemma_cover_join(
                    ts,
                    pos,
                    n,
                    (end - pos - n) as nat,
                    stmt_lexemes(s),
                    items_lexemes(rest.0, 0),
                );
                lemma_items_shift(s, rest.0, 0);
                assert((seq![s] + rest.0)[0] == s);
                end
            },
            Err(f) => {
                let rest = program_from(ts, recovery_point(ts, f.position));
                assert(program_from(ts, pos).1.len() == 1 + rest.1.len());
                pos
            },
        }
    }
}

/// Parsing loses nothing and invents nothing: if `ts` parses, its tokens up
/// to the end of the input are, lexeme by lexeme, the statements that `parse`
/// returns, written one after the other. So there are as many statements as
/// the source holds at top level.
pub proof fn lemma_parse_sound(ts: Seq<SpecToken>) -> (end: nat)
    requires
        parsed(ts) is Ok,
    ensures
        end <= ts.len(),
        kind_at(ts, end) == TokenKind::Eof,
        lexemes(ts).take(end as int) == items_lexemes(parsed(ts)->Ok_0, 0),
{
    let end = lemma_program_sound(ts, 0);
    assert(lexemes(ts).take(end as int) =~= lexemes(ts).subrange(0, end as int));
    end
}

} // verus!
