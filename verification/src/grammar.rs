//! The grammar read from the tree to the tokens: which trees the parser can
//! give, and the proof that it gives each of them back when it reads the
//! tokens that the tree is written with.

use vstd::prelude::*;
use crate::ast::{BinaryOp, LogicalOp, SpecExpr, SpecStmt, UnaryOp};
use crate::parser::{
    block_items_at, combine, condition_at, declaration_at, expression_at, infix_at, kind_at,
    lemma_consumes, level_at, level_rank, level_rest_at, line_at, parsed, primary_at,
    program_from, remaining, statement_at, text_at, unary_at, Expected, Infix, SpecFailure,
    SpecParseError,
};
use crate::unparse::{
    binary_kind, covers, expr_lexemes, items_lexemes, lexeme_of, lexemes, logical_kind,
    name_lexeme, stmt_lexemes, unary_kind, value_lexeme, word, Lexeme,
};
use crate::token::{SpecToken, TokenKind};

verus! {

/// The binding level of an infix operator: 0 binds loosest, 5 tightest.
pub open spec fn infix_level(op: Infix) -> nat {
    match op {
        Infix::Logical(LogicalOp::Or) => 0,
        Infix::Logical(LogicalOp::And) => 1,
        Infix::Binary(BinaryOp::Equal) => 2,
        Infix::Binary(BinaryOp::NotEqual) => 2,
        Infix::Binary(BinaryOp::Greater) => 3,
        Infix::Binary(BinaryOp::GreaterEqual) => 3,
        Infix::Binary(BinaryOp::Less) => 3,
        Infix::Binary(BinaryOp::LessEqual) => 3,
        Infix::Binary(BinaryOp::Add) => 4,
        Infix::Binary(BinaryOp::Subtract) => 4,
        Infix::Binary(BinaryOp::Multiply) => 5,
        Infix::Binary(BinaryOp::Divide) => 5,
    }
}

/// The kind of the token that denotes an infix operator.
pub open spec fn infix_kind(op: Infix) -> TokenKind {
    match op {
        Infix::Logical(op) => logical_kind(op),
        Infix::Binary(op) => binary_kind(op),
    }
}

/// Whether a token of kind `kind` is an infix operator of `level` or of a
/// tighter level: whether it goes on an operand that was parsed at `level`.
pub open spec fn continues(kind: TokenKind, level: nat) -> bool {
    ||| level <= 0 && infix_at(kind, 0) is Some
    ||| level <= 1 && infix_at(kind, 1) is Some
    ||| level <= 2 && infix_at(kind, 2) is Some
    ||| level <= 3 && infix_at(kind, 3) is Some
    ||| level <= 4 && infix_at(kind, 4) is Some
    ||| level <= 5 && infix_at(kind, 5) is Some
}

/// Whether `e` can stand, without parentheses, where an operand of `level`
/// is parsed: it is no assignment, its own operator binds at `level` or
/// tighter, its left operand can stand at the level of its operator, and its
/// right operand one level tighter.
pub open spec fn operand(e: SpecExpr, level: nat) -> bool
    decreases e, 0nat,
{
    match e {
        SpecExpr::Literal(_) => true,
        SpecExpr::Variable { .. } => true,
        SpecExpr::Grouping(inner) => well_formed(*inner),
        SpecExpr::Unary { op, line, right } => operand(*right, 6),
        SpecExpr::Binary { left, op, line, right } => {
            let l = infix_level(Infix::Binary(op));
            l >= level && operand(*left, l) && operand(*right, l + 1)
        },
        SpecExpr::Logical { left, op, right } => {
            let l = infix_level(Infix::Logical(op));
            l >= level && operand(*left, l) && operand(*right, l + 1)
        },
        SpecExpr::Assign { .. } => false,
    }
}

/// Whether `e` is an expression that the parser can give: every operand
/// binds tightly enough for its place, or stands in parentheses.
pub open spec fn well_formed(e: SpecExpr) -> bool
    decreases e, 1nat,
{
    match e {
        SpecExpr::Assign { name, line, value } => well_formed(*value),
        _ => operand(e, 0),
    }
}

/// The expression `e` with every line set to zero.
pub open spec fn unlined(e: SpecExpr) -> SpecExpr
    decreases e,
{
    match e {
        SpecExpr::Literal(v) => SpecExpr::Literal(v),
        SpecExpr::Grouping(inner) => SpecExpr::Grouping(Box::new(unlined(*inner))),
        SpecExpr::Unary { op, line, right } => SpecExpr::Unary {
            op,
            line: 0,
            right: Box::new(unlined(*right)),
        },
        SpecExpr::Binary { left, op, line, right } => SpecExpr::Binary {
            left: Box::new(unlined(*left)),
            op,
            line: 0,
            right: Box::new(unlined(*right)),
        },
        SpecExpr::Logical { left, op, right } => SpecExpr::Logical {
            left: Box::new(unlined(*left)),
            op,
            right: Box::new(unlined(*right)),
        },
        SpecExpr::Variable { name, line } => SpecExpr::Variable { name, line: 0 },
        SpecExpr::Assign { name, line, value } => SpecExpr::Assign {
            name,
            line: 0,
            value: Box::new(unlined(*value)),
        },
    }
}

/// The infix operator at the top of `e`, if there is one.
pub open spec fn top_infix(e: SpecExpr) -> Option<Infix> {
    match e {
        SpecExpr::Binary { left, op, line, right } => Some(Infix::Binary(op)),
        SpecExpr::Logical { left, op, right } => Some(Infix::Logical(op)),
        _ => None,
    }
}

/// The left operand of the infix operator at the top of `e`.
pub open spec fn left_operand(e: SpecExpr) -> SpecExpr {
    match e {
        SpecExpr::Binary { left, op, line, right } => *left,
        SpecExpr::Logical { left, op, right } => *left,
        _ => e,
    }
}

/// The right operand of the infix operator at the top of `e`.
pub open spec fn right_operand(e: SpecExpr) -> SpecExpr {
    match e {
        SpecExpr::Binary { left, op, line, right } => *right,
        SpecExpr::Logical { left, op, right } => *right,
        _ => e,
    }
}

/// Whether the tokens from `pos` on are the lexemes `l`.
pub open spec fn written(ts: Seq<SpecToken>, pos: nat, l: Seq<Lexeme>) -> bool {
    covers(ts, pos, l.len(), l)
}

/// The outcome `r` of a rule that started `taken` tokens further left.
pub open spec fn shifted<T>(r: Result<(T, nat), SpecFailure>, taken: nat) -> Result<
    (T, nat),
    SpecFailure,
> {
    match r {
        Ok((value, n)) => Ok((value, taken + n)),
        Err(f) => Err(f),
    }
}

/// Whether the rule gave an expression of the syntax of `e`, from `n` tokens.
pub open spec fn gives(r: Result<(SpecExpr, nat), SpecFailure>, e: SpecExpr, n: nat) -> bool {
    match r {
        Ok((found, taken)) => taken == n && unlined(found) == unlined(e),
        Err(_) => false,
    }
}

proof fn lemma_infix_inverse(op: Infix, level: nat)
    ensures
        infix_at(infix_kind(op), level) == if level == infix_level(op) {
            Some(op)
        } else {
            None
        },
{
}

proof fn lemma_written_split(ts: Seq<SpecToken>, pos: nat, a: Seq<Lexeme>, b: Seq<Lexeme>)
    requires
        written(ts, pos, a + b),
    ensures
        written(ts, pos, a),
        written(ts, pos + a.len(), b),
{
    let l = lexemes(ts);
    let all = l.subrange(pos as int, (pos + a.len() + b.len()) as int);
    assert(all == a + b);
    assert forall|i: int| 0 <= i < a.len() implies l[pos + i] == a[i] by {
        assert(all[i] == (a + b)[i]);
    }
    assert forall|i: int| 0 <= i < b.len() implies l[pos + a.len() + i] == b[i] by {
        assert(all[a.len() + i] == (a + b)[a.len() + i]);
    }
    assert(l.subrange(pos as int, (pos + a.len()) as int) =~= a);
    assert(l.subrange((pos + a.len()) as int, (pos + a.len() + b.len()) as int) =~= b);
}

proof fn lemma_written_first(ts: Seq<SpecToken>, pos: nat, l: Seq<Lexeme>)
    requires
        written(ts, pos, l),
        l.len() >= 1,
    ensures
        pos < ts.len(),
        lexeme_of(ts[pos as int]) == l[0],
{
    assert(lexemes(ts).subrange(pos as int, (pos + l.len()) as int)[0] == l[0]);
}

/// An expression is written with at least one lexeme, and the first is none
/// that starts another kind of statement or ends a block.
pub proof fn lemma_expression_start(e: SpecExpr)
    ensures
        expr_lexemes(e).len() >= 1,
        ({
            let kind = expr_lexemes(e)[0].kind;
            kind == TokenKind::Nil || kind == TokenKind::True || kind == TokenKind::False || kind
                == TokenKind::Number || kind == TokenKind::Str || kind == TokenKind::Identifier
                || kind == TokenKind::LeftParen || kind == TokenKind::Bang || kind
                == TokenKind::Minus
        }),
    decreases e,
{
    match e {
        SpecExpr::Binary { left, op, line, right } => {
            lemma_expression_start(*left);
        },
        SpecExpr::Logical { left, op, right } => {
            lemma_expression_start(*left);
        },
        _ => {},
    }
}

/// A name that no operator of `level` or tighter follows is a variable at
/// every level from `level` on.
proof fn lemma_name_parses(ts: Seq<SpecToken>, pos: nat, level: nat, name: Seq<char>)
    requires
        level <= 6,
        pos < ts.len(),
        lexeme_of(ts[pos as int]) == name_lexeme(name),
        !continues(kind_at(ts, pos + 1), level),
    ensures
        level_at(ts, pos, level) == Ok::<(SpecExpr, nat), SpecFailure>(
            (SpecExpr::Variable { name, line: line_at(ts, pos) }, 1),
        ),
    decreases 6 - level,
{
    let variable = SpecExpr::Variable { name, line: line_at(ts, pos) };
    assert(kind_at(ts, pos) == TokenKind::Identifier);
    assert(text_at(ts, pos) == Some(name));
    if level < 6 {
        lemma_name_parses(ts, pos, level + 1, name);
        assert(infix_at(kind_at(ts, pos + 1), level) is None);
        assert(level_rest_at(ts, pos + 1, level, variable) == Ok::<(SpecExpr, nat), SpecFailure>(
            (variable, 0),
        ));
    } else {
        assert(primary_at(ts, pos) == Ok::<(SpecExpr, nat), SpecFailure>((variable, 1)));
        assert(unary_at(ts, pos) == primary_at(ts, pos));
    }
}

/// An operand that no operator of `level` or tighter follows is parsed whole
/// at `level`.
#[verifier::rlimit(40)]
proof fn lemma_operand_parses(ts: Seq<SpecToken>, pos: nat, e: SpecExpr, level: nat)
    requires
        level <= 6,
        operand(e, level),
        written(ts, pos, expr_lexemes(e)),
        !continues(kind_at(ts, pos + expr_lexemes(e).len()), level),
    ensures
        gives(level_at(ts, pos, level), e, expr_lexemes(e).len()),
    decreases e, 2 * (7 - level) + 1,
{
    let n = expr_lexemes(e).len();
    if level < 6 {
        let found = lemma_spine_parses(ts, pos, e, level);
        assert(infix_at(kind_at(ts, pos + n), level) is None);
        assert(level_rest_at(ts, pos + n, level, found) == Ok::<(SpecExpr, nat), SpecFailure>(
            (found, 0),
        ));
    } else {
        lemma_written_first(ts, pos, expr_lexemes(e));
        let first = kind_at(ts, pos);
        assert(level_at(ts, pos, level) == unary_at(ts, pos));
        match e {
            SpecExpr::Unary { op, line, right } => {
                lemma_written_split(ts, pos, seq![word(unary_kind(op))], expr_lexemes(*right));
                lemma_operand_parses(ts, pos + 1, *right, 6);
                assert(first == unary_kind(op));
                assert(level_at(ts, pos + 1, 6) == unary_at(ts, pos + 1));
                let found = unary_at(ts, pos + 1)->Ok_0.0;
                assert(unary_at(ts, pos) == Ok::<(SpecExpr, nat), SpecFailure>(
                    (
                        SpecExpr::Unary { op, line: line_at(ts, pos), right: Box::new(found) },
                        expr_lexemes(*right).len() + 1,
                    ),
                ));
            },
            SpecExpr::Grouping(inner) => {
                let open = seq![word(TokenKind::LeftParen)];
                let close = seq![word(TokenKind::RightParen)];
                lemma_written_split(ts, pos, open + expr_lexemes(*inner), close);
                lemma_written_split(ts, pos, open, expr_lexemes(*inner));
                let m = expr_lexemes(*inner).len();
                lemma_written_first(ts, pos + 1 + m, close);
                assert(kind_at(ts, pos + 1 + m) == TokenKind::RightParen);
                lemma_expression_parses(ts, pos + 1, *inner);
                assert(first == TokenKind::LeftParen);
                let found = expression_at(ts, pos + 1)->Ok_0.0;
                assert(primary_at(ts, pos) == Ok::<(SpecExpr, nat), SpecFailure>(
                    (SpecExpr::Grouping(Box::new(found)), m + 2),
                ));
                assert(unary_at(ts, pos) == primary_at(ts, pos));
            },
            SpecExpr::Literal(v) => {
                assert(lexeme_of(ts[pos as int]) == value_lexeme(v));
                assert(primary_at(ts, pos) == Ok::<(SpecExpr, nat), SpecFailure>((e, 1)));
                assert(unary_at(ts, pos) == primary_at(ts, pos));
            },
            SpecExpr::Variable { name, line } => {
                assert(lexeme_of(ts[pos as int]) == name_lexeme(name));
                assert(text_at(ts, pos) == Some(name));
                assert(primary_at(ts, pos) == Ok::<(SpecExpr, nat), SpecFailure>(
                    (SpecExpr::Variable { name, line: line_at(ts, pos) }, 1),
                ));
                assert(unary_at(ts, pos) == primary_at(ts, pos));
            },
            _ => {},
        }
    }
}

/// The left operand of an operator of `level` is parsed, and the rule of
/// `level` then stands behind it with the operand in hand.
#[verifier::rlimit(40)]
proof fn lemma_spine_parses(ts: Seq<SpecToken>, pos: nat, left: SpecExpr, level: nat) -> (found:
    SpecExpr)
    requires
        level < 6,
        operand(left, level),
        written(ts, pos, expr_lexemes(left)),
        !continues(kind_at(ts, pos + expr_lexemes(left).len()), level + 1),
    ensures
        unlined(found) == unlined(left),
        level_at(ts, pos, level) == shifted(
            level_rest_at(ts, pos + expr_lexemes(left).len(), level, found),
            expr_lexemes(left).len(),
        ),
    decreases left, 2 * (7 - level),
{
    let n = expr_lexemes(left).len();
    if top_infix(left) is Some && infix_level(top_infix(left)->0) == level {
        let op = top_infix(left)->0;
        let a = left_operand(left);
        let b = right_operand(left);
        let mark = seq![word(infix_kind(op))];
        assert(expr_lexemes(left) == expr_lexemes(a) + mark + expr_lexemes(b));
        lemma_written_split(ts, pos, expr_lexemes(a) + mark, expr_lexemes(b));
        lemma_written_split(ts, pos, expr_lexemes(a), mark);
        let na = expr_lexemes(a).len();
        let nb = expr_lexemes(b).len();
        lemma_written_first(ts, pos + na, mark);
        lemma_infix_inverse(op, 0);
        lemma_infix_inverse(op, 1);
        lemma_infix_inverse(op, 2);
        lemma_infix_inverse(op, 3);
        lemma_infix_inverse(op, 4);
        lemma_infix_inverse(op, 5);
        assert(kind_at(ts, pos + na) == infix_kind(op));
        let head = lemma_spine_parses(ts, pos, a, level);
        lemma_operand_parses(ts, pos + na + 1, b, level + 1);
        let right = level_at(ts, pos + na + 1, level + 1)->Ok_0.0;
        let found = combine(head, op, line_at(ts, pos + na), right);
        assert(level_rest_at(ts, pos + na, level, head) == shifted(
            level_rest_at(ts, pos + n, level, found),
            1 + nb,
        ));
        found
    } else {
        assert(operand(left, level + 1));
        lemma_operand_parses(ts, pos, left, level + 1);
        level_at(ts, pos, level + 1)->Ok_0.0
    }
}

/// A well-formed expression that neither an infix operator nor `=` follows
/// is parsed whole.
proof fn lemma_expression_parses(ts: Seq<SpecToken>, pos: nat, e: SpecExpr)
    requires
        well_formed(e),
        written(ts, pos, expr_lexemes(e)),
        !continues(kind_at(ts, pos + expr_lexemes(e).len()), 0),
        kind_at(ts, pos + expr_lexemes(e).len()) != TokenKind::Equal,
    ensures
        gives(expression_at(ts, pos), e, expr_lexemes(e).len()),
    decreases e, 100nat,
{
    match e {
        SpecExpr::Assign { name, line, value } => {
            let head = seq![name_lexeme(name), word(TokenKind::Equal)];
            lemma_written_split(ts, pos, head, expr_lexemes(*value));
            assert(seq![name_lexeme(name)] + seq![word(TokenKind::Equal)] =~= head);
            lemma_written_split(ts, pos, seq![name_lexeme(name)], seq![word(TokenKind::Equal)]);
            lemma_written_first(ts, pos, seq![name_lexeme(name)]);
            lemma_written_first(ts, pos + 1, seq![word(TokenKind::Equal)]);
            assert(kind_at(ts, pos + 1) == TokenKind::Equal);
            lemma_name_parses(ts, pos, 0, name);
            lemma_expression_parses(ts, pos + 2, *value);
            let found = expression_at(ts, pos + 2)->Ok_0.0;
            assert(expression_at(ts, pos) == Ok::<(SpecExpr, nat), SpecFailure>(
                (
                    SpecExpr::Assign { name, line: line_at(ts, pos), value: Box::new(found) },
                    expr_lexemes(*value).len() + 2,
                ),
            ));
        },
        _ => {
            lemma_operand_parses(ts, pos, e, 0);
            let found = level_at(ts, pos, 0)->Ok_0.0;
            assert(expression_at(ts, pos) == Ok::<(SpecExpr, nat), SpecFailure>(
                (found, expr_lexemes(e).len()),
            ));
        },
    }
}

/// Every well-formed expression is parsed back from the tokens that it is
/// written with: from where they start, `expression` gives an expression of
/// the same syntax and takes exactly these tokens, whatever follows them but
/// an infix operator or `=`.
pub proof fn lemma_expression_complete(ts: Seq<SpecToken>, pos: nat, e: SpecExpr)
    requires
        well_formed(e),
        written(ts, pos, expr_lexemes(e)),
        !continues(kind_at(ts, pos + expr_lexemes(e).len()), 0),
        kind_at(ts, pos + expr_lexemes(e).len()) != TokenKind::Equal,
    ensures
        gives(expression_at(ts, pos), e, expr_lexemes(e).len()),
{
    lemma_expression_parses(ts, pos, e);
}

/// Whether `s` ends in an `if` without `else`: whether an `else` that
/// follows `s` would be taken for a part of it.
pub open spec fn absorbs_else(s: SpecStmt) -> bool
    decreases s,
{
    match s {
        SpecStmt::If { condition, then_branch, else_branch } => match else_branch {
            None => true,
            Some(other) => absorbs_else(*other),
        },
        SpecStmt::While { condition, body, line } => absorbs_else(*body),
        _ => false,
    }
}

/// Whether `s` is a statement that the parser can give where no declaration
/// may stand: its expressions are well formed, the branches of `if` and the
/// body of `while` are no declarations, and the first branch of an `if` with
/// `else` does not end in an `if` without `else`.
pub open spec fn valid_statement(s: SpecStmt) -> bool
    decreases s, 0nat,
{
    match s {
        SpecStmt::Expression(e) => well_formed(e),
        SpecStmt::Print(e) => well_formed(e),
        SpecStmt::Var { .. } => false,
        SpecStmt::Block(items) => valid_items(items, 0),
        SpecStmt::If { condition, then_branch, else_branch } => {
            &&& well_formed(condition)
            &&& valid_statement(*then_branch)
            &&& match else_branch {
                None => true,
                Some(other) => valid_statement(*other) && !absorbs_else(*then_branch),
            }
        },
        SpecStmt::While { condition, body, line } => well_formed(condition) && valid_statement(
            *body,
        ),
    }
}

/// Whether `s` is a statement that the parser can give at top level or in a
/// block.
pub open spec fn valid_declaration(s: SpecStmt) -> bool
    decreases s, 1nat,
{
    match s {
        SpecStmt::Var { name, initializer } => match initializer {
            None => true,
            Some(e) => well_formed(e),
        },
        _ => valid_statement(s),
    }
}

/// Whether the statements from the `i`-th on are ones that the parser can
/// give.
pub open spec fn valid_items(items: Seq<SpecStmt>, i: nat) -> bool
    decreases items, items.len() - i,
{
    if i >= items.len() {
        true
    } else {
        valid_declaration(items[i as int]) && valid_items(items, i + 1)
    }
}

/// The statement `s` with every line set to zero.
pub open spec fn unlined_stmt(s: SpecStmt) -> SpecStmt
    decreases s,
{
    match s {
        SpecStmt::Expression(e) => SpecStmt::Expression(unlined(e)),
        SpecStmt::Print(e) => SpecStmt::Print(unlined(e)),
        SpecStmt::Var { name, initializer } => SpecStmt::Var {
            name,
            initializer: match initializer {
                None => None,
                Some(e) => Some(unlined(e)),
            },
        },
        SpecStmt::Block(items) => SpecStmt::Block(
            Seq::new(
                items.len(),
                |i: int|
                    if 0 <= i < items.len() {
                        unlined_stmt(items[i])
                    } else {
                        SpecStmt::Block(Seq::empty())
                    },
            ),
        ),
        SpecStmt::If { condition, then_branch, else_branch } => SpecStmt::If {
            condition: unlined(condition),
            then_branch: Box::new(unlined_stmt(*then_branch)),
            else_branch: match else_branch {
                None => None,
                Some(other) => Some(Box::new(unlined_stmt(*other))),
            },
        },
        SpecStmt::While { condition, body, line } => SpecStmt::While {
            condition: unlined(condition),
            body: Box::new(unlined_stmt(*body)),
            line: 0,
        },
    }
}

/// Whether the rule gave a statement of the syntax of `s`, from `n` tokens.
pub open spec fn gives_statement(r: Result<(SpecStmt, nat), SpecFailure>, s: SpecStmt, n: nat) -> bool {
    match r {
        Ok((found, taken)) => taken == n && unlined_stmt(found) == unlined_stmt(s),
        Err(_) => false,
    }
}

/// Whether `found` holds the statements of `items` from the `i`-th on, line
/// numbers apart.
pub open spec fn same_statements(found: Seq<SpecStmt>, items: Seq<SpecStmt>, i: nat) -> bool {
    &&& found.len() + i == items.len()
    &&& forall|j: int|
        0 <= j < found.len() ==> unlined_stmt(#[trigger] found[j]) == unlined_stmt(items[i + j])
}

/// A statement is written with at least one lexeme. The first is no `else`,
/// no closing brace and no end of input; it is `var` for a declaration only,
/// and for an expression statement it starts no other kind of statement.
pub proof fn lemma_statement_start(s: SpecStmt)
    ensures
        stmt_lexemes(s).len() >= 1,
        ({
            let kind = stmt_lexemes(s)[0].kind;
            &&& kind != TokenKind::Else
            &&& kind != TokenKind::RightBrace
            &&& kind != TokenKind::Eof
            &&& !(s is Var) ==> kind != TokenKind::Var
            &&& s is Expression ==> kind != TokenKind::Print && kind != TokenKind::LeftBrace
                && kind != TokenKind::If && kind != TokenKind::While
        }),
{
    match s {
        SpecStmt::Expression(e) => {
            lemma_expression_start(e);
        },
        SpecStmt::If { condition, then_branch, else_branch } => {
            let head = seq![word(TokenKind::If), word(TokenKind::LeftParen)];
            assert(stmt_lexemes(s)[0] == head[0]);
        },
        SpecStmt::While { condition, body, line } => {
            let head = seq![word(TokenKind::While), word(TokenKind::LeftParen)];
            assert(stmt_lexemes(s)[0] == head[0]);
        },
        _ => {},
    }
}

/// A well-formed condition in parentheses is parsed whole.
proof fn lemma_condition_parses(
    ts: Seq<SpecToken>,
    pos: nat,
    condition: SpecExpr,
    open: Expected,
    close: Expected,
)
    requires
        well_formed(condition),
        written(
            ts,
            pos,
            seq![word(TokenKind::LeftParen)] + expr_lexemes(condition) + seq![
                word(TokenKind::RightParen),
            ],
        ),
    ensures
        gives(condition_at(ts, pos, open, close), condition, expr_lexemes(condition).len() + 2),
{
    let left = seq![word(TokenKind::LeftParen)];
    let right = seq![word(TokenKind::RightParen)];
    let n = expr_lexemes(condition).len();
    lemma_written_split(ts, pos, left + expr_lexemes(condition), right);
    lemma_written_split(ts, pos, left, expr_lexemes(condition));
    lemma_written_first(ts, pos, left);
    lemma_written_first(ts, pos + 1 + n, right);
    assert(kind_at(ts, pos) == TokenKind::LeftParen);
    assert(kind_at(ts, pos + 1 + n) == TokenKind::RightParen);
    lemma_expression_parses(ts, pos + 1, condition);
}

/// After a keyword: the condition in parentheses and the statement behind it.
proof fn lemma_headed_split(
    ts: Seq<SpecToken>,
    pos: nat,
    keyword: TokenKind,
    condition: SpecExpr,
    body: Seq<Lexeme>,
)
    requires
        written(
            ts,
            pos,
            seq![word(keyword), word(TokenKind::LeftParen)] + expr_lexemes(condition) + seq![
                word(TokenKind::RightParen),
            ] + body,
        ),
    ensures
        pos < ts.len(),
        kind_at(ts, pos) == keyword,
        written(
            ts,
            pos + 1,
            seq![word(TokenKind::LeftParen)] + expr_lexemes(condition) + seq![
                word(TokenKind::RightParen),
            ],
        ),
        written(ts, pos + 3 + expr_lexemes(condition).len(), body),
{
    let parens = seq![word(TokenKind::LeftParen)] + expr_lexemes(condition) + seq![
        word(TokenKind::RightParen),
    ];
    let all = seq![word(keyword), word(TokenKind::LeftParen)] + expr_lexemes(condition) + seq![
        word(TokenKind::RightParen),
    ] + body;
    assert(all =~= seq![word(keyword)] + (parens + body));
    lemma_written_split(ts, pos, seq![word(keyword)], parens + body);
    lemma_written_split(ts, pos + 1, parens, body);
    lemma_written_first(ts, pos, seq![word(keyword)]);
}

/// An expression statement whose expression is parsed is parsed.
proof fn lemma_expression_statement(ts: Seq<SpecToken>, pos: nat, e: SpecExpr)
    requires
        well_formed(e),
        written(ts, pos, stmt_lexemes(SpecStmt::Expression(e))),
    ensures
        gives_statement(
            statement_at(ts, pos),
            SpecStmt::Expression(e),
            stmt_lexemes(SpecStmt::Expression(e)).len(),
        ),
{
    let end = seq![word(TokenKind::Semicolon)];
    let n = expr_lexemes(e).len();
    lemma_expression_start(e);
    lemma_written_split(ts, pos, expr_lexemes(e), end);
    lemma_written_first(ts, pos, expr_lexemes(e));
    lemma_written_first(ts, pos + n, end);
    assert(kind_at(ts, pos + n) == TokenKind::Semicolon);
    lemma_expression_parses(ts, pos, e);
    let found = expression_at(ts, pos)->Ok_0.0;
    assert(statement_at(ts, pos) == Ok::<(SpecStmt, nat), SpecFailure>(
        (SpecStmt::Expression(found), n + 1),
    ));
}

/// A `print` statement whose expression is parsed is parsed.
proof fn lemma_print_statement(ts: Seq<SpecToken>, pos: nat, e: SpecExpr)
    requires
        well_formed(e),
        written(ts, pos, stmt_lexemes(SpecStmt::Print(e))),
    ensures
        gives_statement(
            statement_at(ts, pos),
            SpecStmt::Print(e),
            stmt_lexemes(SpecStmt::Print(e)).len(),
        ),
{
    let end = seq![word(TokenKind::Semicolon)];
    let head = seq![word(TokenKind::Print)];
    let n = expr_lexemes(e).len();
    lemma_written_split(ts, pos, head + expr_lexemes(e), end);
    lemma_written_split(ts, pos, head, expr_lexemes(e));
    lemma_written_first(ts, pos, head);
    lemma_written_first(ts, pos + 1 + n, end);
    assert(kind_at(ts, pos) == TokenKind::Print);
    assert(kind_at(ts, pos + 1 + n) == TokenKind::Semicolon);
    lemma_expression_parses(ts, pos + 1, e);
    let found = expression_at(ts, pos + 1)->Ok_0.0;
    assert(statement_at(ts, pos) == Ok::<(SpecStmt, nat), SpecFailure>(
        (SpecStmt::Print(found), n + 2),
    ));
}

/// A block whose statements are parsed is parsed.
proof fn lemma_block_statement(ts: Seq<SpecToken>, pos: nat, items: Seq<SpecStmt>)
    requires
        kind_at(ts, pos) == TokenKind::LeftBrace,
        match block_items_at(ts, pos + 1) {
            Ok((found, n)) => n == items_lexemes(items, 0).len() + 1 && same_statements(
                found,
                items,
                0,
            ),
            Err(_) => false,
        },
    ensures
        gives_statement(
            statement_at(ts, pos),
            SpecStmt::Block(items),
            stmt_lexemes(SpecStmt::Block(items)).len(),
        ),
{
    let (found, n) = block_items_at(ts, pos + 1)->Ok_0;
    assert(statement_at(ts, pos) == Ok::<(SpecStmt, nat), SpecFailure>(
        (SpecStmt::Block(found), n + 1),
    ));
    assert(unlined_stmt(SpecStmt::Block(found))->Block_0 =~= unlined_stmt(
        SpecStmt::Block(items),
    )->Block_0);
}

/// An `if` whose condition and branches are parsed is parsed.
#[verifier::rlimit(40)]
proof fn lemma_if_statement(
    ts: Seq<SpecToken>,
    pos: nat,
    condition: SpecExpr,
    then_branch: SpecStmt,
    else_branch: Option<SpecStmt>,
)
    requires
        kind_at(ts, pos) == TokenKind::If,
        gives(
            condition_at(ts, pos + 1, Expected::LeftParenAfterIf, Expected::RightParenAfterIf),
            condition,
            expr_lexemes(condition).len() + 2,
        ),
        gives_statement(
            statement_at(ts, pos + 3 + expr_lexemes(condition).len()),
            then_branch,
            stmt_lexemes(then_branch).len(),
        ),
        match else_branch {
            None => kind_at(
                ts,
                pos + 3 + expr_lexemes(condition).len() + stmt_lexemes(then_branch).len(),
            ) != TokenKind::Else,
            Some(other) => {
                &&& kind_at(
                    ts,
                    pos + 3 + expr_lexemes(condition).len() + stmt_lexemes(then_branch).len(),
                ) == TokenKind::Else
                &&& gives_statement(
                    statement_at(
                        ts,
                        pos + 4 + expr_lexemes(condition).len() + stmt_lexemes(then_branch).len(),
                    ),
                    other,
                    stmt_lexemes(other).len(),
                )
            },
        },
    ensures
        match else_branch {
            None => gives_statement(
                statement_at(ts, pos),
                SpecStmt::If { condition, then_branch: Box::new(then_branch), else_branch: None },
                3 + expr_lexemes(condition).len() + stmt_lexemes(then_branch).len(),
            ),
            Some(other) => gives_statement(
                statement_at(ts, pos),
                SpecStmt::If {
                    condition,
                    then_branch: Box::new(then_branch),
                    else_branch: Some(Box::new(other)),
                },
                4 + expr_lexemes(condition).len() + stmt_lexemes(then_branch).len()
                    + stmt_lexemes(other).len(),
            ),
        },
{
    let n = expr_lexemes(condition).len();
    let m = stmt_lexemes(then_branch).len();
    let c = condition_at(
        ts,
        pos + 1,
        Expected::LeftParenAfterIf,
        Expected::RightParenAfterIf,
    )->Ok_0.0;
    let t = statement_at(ts, pos + 3 + n)->Ok_0.0;
    match else_branch {
        None => {
            assert(statement_at(ts, pos) == Ok::<(SpecStmt, nat), SpecFailure>(
                (
                    SpecStmt::If { condition: c, then_branch: Box::new(t), else_branch: None },
                    3 + n + m,
                ),
            ));
        },
        Some(other) => {
            let x = statement_at(ts, pos + 4 + n + m)->Ok_0.0;
            assert(statement_at(ts, pos) == Ok::<(SpecStmt, nat), SpecFailure>(
                (
                    SpecStmt::If {
                        condition: c,
                        then_branch: Box::new(t),
                        else_branch: Some(Box::new(x)),
                    },
                    4 + n + m + stmt_lexemes(other).len(),
                ),
            ));
        },
    }
}

/// A `while` whose condition and body are parsed is parsed.
proof fn lemma_while_statement(
    ts: Seq<SpecToken>,
    pos: nat,
    condition: SpecExpr,
    body: SpecStmt,
    line: u32,
)
    requires
        kind_at(ts, pos) == TokenKind::While,
        gives(
            condition_at(
                ts,
                pos + 1,
                Expected::LeftParenAfterWhile,
                Expected::RightParenAfterWhile,
            ),
            condition,
            expr_lexemes(condition).len() + 2,
        ),
        gives_statement(
            statement_at(ts, pos + 3 + expr_lexemes(condition).len()),
            body,
            stmt_lexemes(body).len(),
        ),
    ensures
        gives_statement(
            statement_at(ts, pos),
            SpecStmt::While { condition, body: Box::new(body), line },
            3 + expr_lexemes(condition).len() + stmt_lexemes(body).len(),
        ),
{
    let n = expr_lexemes(condition).len();
    let c = condition_at(
        ts,
        pos + 1,
        Expected::LeftParenAfterWhile,
        Expected::RightParenAfterWhile,
    )->Ok_0.0;
    let b = statement_at(ts, pos + 3 + n)->Ok_0.0;
    assert(statement_at(ts, pos) == Ok::<(SpecStmt, nat), SpecFailure>(
        (
            SpecStmt::While { condition: c, body: Box::new(b), line: line_at(ts, pos) },
            3 + n + stmt_lexemes(body).len(),
        ),
    ));
}

/// A valid statement is parsed whole, unless it ends in an `if` without
/// `else` and an `else` follows.
#[verifier::rlimit(40)]
proof fn lemma_statement_parses(ts: Seq<SpecToken>, pos: nat, s: SpecStmt)
    requires
        valid_statement(s),
        written(ts, pos, stmt_lexemes(s)),
        absorbs_else(s) ==> kind_at(ts, pos + stmt_lexemes(s).len()) != TokenKind::Else,
    ensures
        gives_statement(statement_at(ts, pos), s, stmt_lexemes(s).len()),
    decreases s, 0nat,
{
    match s {
        SpecStmt::Expression(e) => {
            lemma_expression_statement(ts, pos, e);
        },
        SpecStmt::Print(e) => {
            lemma_print_statement(ts, pos, e);
        },
        SpecStmt::Var { name, initializer } => {},
        SpecStmt::Block(items) => {
            let head = seq![word(TokenKind::LeftBrace)];
            let inner = items_lexemes(items, 0) + seq![word(TokenKind::RightBrace)];
            assert(stmt_lexemes(s) =~= head + inner);
            lemma_written_split(ts, pos, head, inner);
            lemma_written_first(ts, pos, head);
            lemma_items_parse(ts, pos + 1, items, 0);
            lemma_block_statement(ts, pos, items);
        },
        SpecStmt::If { condition, then_branch, else_branch } => {
            let n = expr_lexemes(condition).len();
            let m = stmt_lexemes(*then_branch).len();
            let head = seq![word(TokenKind::If), word(TokenKind::LeftParen)] + expr_lexemes(
                condition,
            ) + seq![word(TokenKind::RightParen)];
            match else_branch {
                None => {
                    lemma_headed_split(ts, pos, TokenKind::If, condition, stmt_lexemes(*then_branch));
                    lemma_condition_parses(
                        ts,
                        pos + 1,
                        condition,
                        Expected::LeftParenAfterIf,
                        Expected::RightParenAfterIf,
                    );
                    lemma_statement_parses(ts, pos + 3 + n, *then_branch);
                    lemma_if_statement(ts, pos, condition, *then_branch, None);
                },
                Some(other) => {
                    let mark = seq![word(TokenKind::Else)];
                    lemma_written_split(
                        ts,
                        pos,
                        head + stmt_lexemes(*then_branch) + mark,
                        stmt_lexemes(*other),
                    );
                    lemma_written_split(ts, pos, head + stmt_lexemes(*then_branch), mark);
                    lemma_headed_split(ts, pos, TokenKind::If, condition, stmt_lexemes(*then_branch));
                    lemma_written_first(ts, pos + 3 + n + m, mark);
                    lemma_condition_parses(
                        ts,
                        pos + 1,
                        condition,
                        Expected::LeftParenAfterIf,
                        Expected::RightParenAfterIf,
                    );
                    lemma_statement_parses(ts, pos + 3 + n, *then_branch);
                    lemma_statement_parses(ts, pos + 4 + n + m, *other);
                    lemma_if_statement(ts, pos, condition, *then_branch, Some(*other));
                },
            }
        },
        SpecStmt::While { condition, body, line } => {
            let n = expr_lexemes(condition).len();
            lemma_headed_split(ts, pos, TokenKind::While, condition, stmt_lexemes(*body));
            lemma_condition_parses(
                ts,
                pos + 1,
                condition,
                Expected::LeftParenAfterWhile,
                Expected::RightParenAfterWhile,
            );
            lemma_statement_parses(ts, pos + 3 + n, *body);
            lemma_while_statement(ts, pos, condition, *body, line);
        },
    }
}

/// A valid declaration is parsed whole, unless it ends in an `if` without
/// `else` and an `else` follows.
#[verifier::rlimit(40)]
proof fn lemma_declaration_parses(ts: Seq<SpecToken>, pos: nat, s: SpecStmt)
    requires
        valid_declaration(s),
        written(ts, pos, stmt_lexemes(s)),
        absorbs_else(s) ==> kind_at(ts, pos + stmt_lexemes(s).len()) != TokenKind::Else,
    ensures
        gives_statement(declaration_at(ts, pos), s, stmt_lexemes(s).len()),
    decreases s, 1nat,
{
    let end = seq![word(TokenKind::Semicolon)];
    lemma_statement_start(s);
    lemma_written_first(ts, pos, stmt_lexemes(s));
    match s {
        SpecStmt::Var { name, initializer } => {
            let var = seq![word(TokenKind::Var)];
            let named = seq![name_lexeme(name)];
            match initializer {
                None => {
                    assert(stmt_lexemes(s) =~= var + named + end);
                    lemma_written_split(ts, pos, var + named, end);
                    lemma_written_split(ts, pos, var, named);
                    lemma_written_first(ts, pos + 1, named);
                    lemma_written_first(ts, pos + 2, end);
                    assert(kind_at(ts, pos + 1) == TokenKind::Identifier);
                    assert(text_at(ts, pos + 1) == Some(name));
                    assert(kind_at(ts, pos + 2) == TokenKind::Semicolon);
                },
                Some(e) => {
                    let n = expr_lexemes(e).len();
                    let mark = seq![word(TokenKind::Equal)];
                    assert(stmt_lexemes(s) =~= var + named + mark + expr_lexemes(e) + end);
                    lemma_written_split(ts, pos, var + named + mark + expr_lexemes(e), end);
                    lemma_written_split(ts, pos, var + named + mark, expr_lexemes(e));
                    lemma_written_split(ts, pos, var + named, mark);
                    lemma_written_split(ts, pos, var, named);
                    lemma_written_first(ts, pos + 1, named);
                    lemma_written_first(ts, pos + 2, mark);
                    lemma_written_first(ts, pos + 3 + n, end);
                    assert(kind_at(ts, pos + 1) == TokenKind::Identifier);
                    assert(text_at(ts, pos + 1) == Some(name));
                    assert(kind_at(ts, pos + 2) == TokenKind::Equal);
                    assert(kind_at(ts, pos + 3 + n) == TokenKind::Semicolon);
                    lemma_expression_parses(ts, pos + 3, e);
                    let found = expression_at(ts, pos + 3)->Ok_0.0;
                    assert(declaration_at(ts, pos) == Ok::<(SpecStmt, nat), SpecFailure>(
                        (SpecStmt::Var { name, initializer: Some(found) }, n + 4),
                    ));
                },
            }
        },
        _ => {
            lemma_statement_parses(ts, pos, s);
            assert(declaration_at(ts, pos) == statement_at(ts, pos));
        },
    }
}

/// What follows a statement in a list is no `else`.
proof fn lemma_next_is_no_else(items: Seq<SpecStmt>, i: nat, after: Lexeme)
    requires
        after.kind != TokenKind::Else,
    ensures
        (items_lexemes(items, i) + seq![after])[0].kind != TokenKind::Else,
{
    if i < items.len() {
        lemma_statement_start(items[i as int]);
    }
}

/// The valid statements of a block, with its closing brace, are parsed
/// whole.
#[verifier::rlimit(40)]
proof fn lemma_items_parse(ts: Seq<SpecToken>, pos: nat, items: Seq<SpecStmt>, i: nat)
    requires
        i <= items.len(),
        valid_items(items, i),
        written(ts, pos, items_lexemes(items, i) + seq![word(TokenKind::RightBrace)]),
    ensures
        match block_items_at(ts, pos) {
            Ok((found, n)) => n == items_lexemes(items, i).len() + 1 && same_statements(
                found,
                items,
                i,
            ),
            Err(_) => false,
        },
    decreases items, items.len() - i,
{
    let close = seq![word(TokenKind::RightBrace)];
    if i >= items.len() {
        assert(items_lexemes(items, i) + close =~= close);
        lemma_written_first(ts, pos, close);
    } else {
        let first = items[i as int];
        let rest = items_lexemes(items, i + 1) + close;
        let n = stmt_lexemes(first).len();
        assert(items_lexemes(items, i) + close =~= stmt_lexemes(first) + rest);
        lemma_written_split(ts, pos, stmt_lexemes(first), rest);
        lemma_statement_start(first);
        lemma_written_first(ts, pos, stmt_lexemes(first));
        lemma_next_is_no_else(items, i + 1, word(TokenKind::RightBrace));
        lemma_written_first(ts, pos + n, rest);
        lemma_declaration_parses(ts, pos, first);
        lemma_items_parse(ts, pos + n, items, i + 1);
        let f = declaration_at(ts, pos)->Ok_0.0;
        let (others, m) = block_items_at(ts, pos + n)->Ok_0;
        let found = seq![f] + others;
        assert(block_items_at(ts, pos) == Ok::<(Seq<SpecStmt>, nat), SpecFailure>((found, n + m)));
        assert forall|j: int| 0 <= j < found.len() implies unlined_stmt(#[trigger] found[j])
            == unlined_stmt(items[i + j]) by {
            if j > 0 {
                assert(found[j] == others[j - 1]);
            }
        }
    }
}

/// The valid statements of a program, with the end of the input behind them,
/// are parsed whole and without error.
#[verifier::rlimit(40)]
proof fn lemma_program_parses(ts: Seq<SpecToken>, pos: nat, items: Seq<SpecStmt>, i: nat)
    requires
        i <= items.len(),
        valid_items(items, i),
        written(ts, pos, items_lexemes(items, i)),
        kind_at(ts, pos + items_lexemes(items, i).len()) == TokenKind::Eof,
    ensures
        program_from(ts, pos).1 == Seq::<SpecParseError>::empty(),
        same_statements(program_from(ts, pos).0, items, i),
    decreases items.len() - i,
{
    reveal(program_from);
    if i < items.len() {
        let first = items[i as int];
        let rest = items_lexemes(items, i + 1);
        let n = stmt_lexemes(first).len();
        lemma_written_split(ts, pos, stmt_lexemes(first), rest);
        lemma_statement_start(first);
        lemma_written_first(ts, pos, stmt_lexemes(first));
        if i + 1 < items.len() {
            lemma_statement_start(items[(i + 1) as int]);
            lemma_written_first(ts, pos + n, rest);
        }
        lemma_declaration_parses(ts, pos, first);
        lemma_program_parses(ts, pos + n, items, i + 1);
        let f = declaration_at(ts, pos)->Ok_0.0;
        let others = program_from(ts, pos + n).0;
        let found = seq![f] + others;
        assert(program_from(ts, pos).0 == found);
        assert forall|j: int| 0 <= j < found.len() implies unlined_stmt(#[trigger] found[j])
            == unlined_stmt(items[i + j]) by {
            if j > 0 {
                assert(found[j] == others[j - 1]);
            }
        }
    }
}

/// Every valid program is parsed back from the tokens that it is written
/// with: if the tokens of `ts` up to the end of the input are the lexemes of
/// the valid statements `statements`, one statement after the other, then
/// `ts` parses without error, into as many statements, each of the syntax of
/// the statement in its place.
pub proof fn lemma_parse_complete(ts: Seq<SpecToken>, statements: Seq<SpecStmt>)
    requires
        valid_items(statements, 0),
        written(ts, 0, items_lexemes(statements, 0)),
        kind_at(ts, items_lexemes(statements, 0).len()) == TokenKind::Eof,
    ensures
        parsed(ts) is Ok,
        parsed(ts)->Ok_0.len() == statements.len(),
        same_statements(parsed(ts)->Ok_0, statements, 0),
{
    lemma_program_parses(ts, 0, statements, 0);
}

/// An operator that the rule of `level` reads binds at `level`.
proof fn lemma_infix_level(kind: TokenKind, level: nat)
    ensures
        match infix_at(kind, level) {
            Some(op) => infix_level(op) == level && level < 6,
            None => true,
        },
{
}

/// What can stand at a level can stand at every looser level.
proof fn lemma_operand_looser(e: SpecExpr, level: nat, looser: nat)
    requires
        operand(e, level),
        looser <= level,
    ensures
        operand(e, looser),
{
}

proof fn lemma_primary_valid(ts: Seq<SpecToken>, pos: nat)
    ensures
        match primary_at(ts, pos) {
            Ok((e, n)) => operand(e, 6),
            Err(_) => true,
        },
    decreases remaining(ts, pos), 0nat,
{
    if kind_at(ts, pos) == TokenKind::LeftParen {
        lemma_expression_valid(ts, pos + 1);
    }
}

proof fn lemma_unary_valid(ts: Seq<SpecToken>, pos: nat)
    ensures
        match unary_at(ts, pos) {
            Ok((e, n)) => operand(e, 6),
            Err(_) => true,
        },
    decreases remaining(ts, pos), 1nat,
{
    let kind = kind_at(ts, pos);
    if kind == TokenKind::Bang || kind == TokenKind::Minus {
        lemma_unary_valid(ts, pos + 1);
    } else {
        lemma_primary_valid(ts, pos);
    }
}

proof fn lemma_level_valid(ts: Seq<SpecToken>, pos: nat, level: nat)
    ensures
        match level_at(ts, pos, level) {
            Ok((e, n)) => operand(e, level) || (level >= 6 && operand(e, 6)),
            Err(_) => true,
        },
    decreases remaining(ts, pos), level_rank(level),
{
    if level >= 6 {
        lemma_unary_valid(ts, pos);
    } else {
        lemma_level_valid(ts, pos, level + 1);
        if let Ok((left, n)) = level_at(ts, pos, level + 1) {
            if level + 1 >= 6 {
                lemma_operand_looser(left, 6, level);
            } else {
                lemma_operand_looser(left, level + 1, level);
            }
            lemma_level_rest_valid(ts, pos + n, level, left);
        }
    }
}

proof fn lemma_level_rest_valid(ts: Seq<SpecToken>, pos: nat, level: nat, left: SpecExpr)
    requires
        level < 6,
        operand(left, level),
    ensures
        match level_rest_at(ts, pos, level, left) {
            Ok((e, n)) => operand(e, level),
            Err(_) => true,
        },
    decreases remaining(ts, pos), (level_rank(level) - 1) as nat,
{
    lemma_infix_level(kind_at(ts, pos), level);
    if let Some(op) = infix_at(kind_at(ts, pos), level) {
        lemma_level_valid(ts, pos + 1, level + 1);
        if let Ok((right, n)) = level_at(ts, pos + 1, level + 1) {
            let joined = combine(left, op, line_at(ts, pos), right);
            if level + 1 >= 6 {
                assert(operand(right, 6));
            }
            assert(operand(joined, level));
            lemma_level_rest_valid(ts, pos + 1 + n, level, joined);
        }
    }
}

proof fn lemma_expression_valid(ts: Seq<SpecToken>, pos: nat)
    ensures
        match expression_at(ts, pos) {
            Ok((e, n)) => well_formed(e),
            Err(_) => true,
        },
    decreases remaining(ts, pos), 20nat,
{
    lemma_level_valid(ts, pos, 0);
    if let Ok((left, n)) = level_at(ts, pos, 0) {
        if kind_at(ts, pos + n) == TokenKind::Equal {
            lemma_expression_valid(ts, pos + n + 1);
        }
    }
}

proof fn lemma_condition_valid(ts: Seq<SpecToken>, pos: nat, open: Expected, close: Expected)
    ensures
        match condition_at(ts, pos, open, close) {
            Ok((e, n)) => well_formed(e),
            Err(_) => true,
        },
{
    if kind_at(ts, pos) == TokenKind::LeftParen {
        lemma_expression_valid(ts, pos + 1);
    }
}

/// Whether `s` is a valid statement behind which, if it ends in an `if`
/// without `else`, no `else` stands.
pub open spec fn closed_statement(ts: Seq<SpecToken>, pos: nat, s: SpecStmt, n: nat) -> bool {
    valid_statement(s) && (absorbs_else(s) ==> kind_at(ts, pos + n) != TokenKind::Else)
}

#[verifier::rlimit(40)]
proof fn lemma_statement_valid(ts: Seq<SpecToken>, pos: nat)
    ensures
        match statement_at(ts, pos) {
            Ok((s, n)) => closed_statement(ts, pos, s, n),
            Err(_) => true,
        },
    decreases remaining(ts, pos), 30nat,
{
    let kind = kind_at(ts, pos);
    if statement_at(ts, pos) is Ok {
        if kind == TokenKind::Print {
            lemma_expression_valid(ts, pos + 1);
        } else if kind == TokenKind::LeftBrace {
            lemma_block_items_valid(ts, pos + 1);
        } else if kind == TokenKind::If {
            lemma_condition_valid(
                ts,
                pos + 1,
                Expected::LeftParenAfterIf,
                Expected::RightParenAfterIf,
            );
            let n = condition_at(
                ts,
                pos + 1,
                Expected::LeftParenAfterIf,
                Expected::RightParenAfterIf,
            )->Ok_0.1;
            lemma_statement_valid(ts, pos + 1 + n);
            let m = statement_at(ts, pos + 1 + n)->Ok_0.1;
            if kind_at(ts, pos + 1 + n + m) == TokenKind::Else {
                lemma_statement_valid(ts, pos + 2 + n + m);
            }
        } else if kind == TokenKind::While {
            lemma_condition_valid(
                ts,
                pos + 1,
                Expected::LeftParenAfterWhile,
                Expected::RightParenAfterWhile,
            );
            let n = condition_at(
                ts,
                pos + 1,
                Expected::LeftParenAfterWhile,
                Expected::RightParenAfterWhile,
            )->Ok_0.1;
            lemma_statement_valid(ts, pos + 1 + n);
        } else {
            lemma_expression_valid(ts, pos);
        }
    }
}

proof fn lemma_declaration_valid(ts: Seq<SpecToken>, pos: nat)
    ensures
        match declaration_at(ts, pos) {
            Ok((s, n)) => valid_declaration(s),
            Err(_) => true,
        },
    decreases remaining(ts, pos), 31nat,
{
    if kind_at(ts, pos) == TokenKind::Var {
        if kind_at(ts, pos + 2) == TokenKind::Equal {
            lemma_expression_valid(ts, pos + 3);
        }
    } else {
        lemma_statement_valid(ts, pos);
    }
}

proof fn lemma_valid_shift(first: SpecStmt, rest: Seq<SpecStmt>, i: nat)
    ensures
        valid_items(seq![first] + rest, i + 1) == valid_items(rest, i),
    decreases rest.len() - i,
{
    let all = seq![first] + rest;
    if i < rest.len() {
        lemma_valid_shift(first, rest, i + 1);
        assert(all[(i + 1) as int] == rest[i as int]);
    }
}

proof fn lemma_block_items_valid(ts: Seq<SpecToken>, pos: nat)
    ensures
        match block_items_at(ts, pos) {
            Ok((items, n)) => valid_items(items, 0),
            Err(_) => true,
        },
    decreases remaining(ts, pos), 32nat,
{
    let kind = kind_at(ts, pos);
    if kind != TokenKind::RightBrace && kind != TokenKind::Eof {
        lemma_declaration_valid(ts, pos);
        if let Ok((first, n)) = declaration_at(ts, pos) {
            if n != 0 {
                lemma_block_items_valid(ts, pos + n);
                if let Ok((rest, m)) = block_items_at(ts, pos + n) {
                    lemma_valid_shift(first, rest, 0);
                    assert((seq![first] + rest)[0] == first);
                }
            }
        }
    }
}

proof fn lemma_program_valid(ts: Seq<SpecToken>, pos: nat)
    ensures
        valid_items(program_from(ts, pos).0, 0),
    decreases remaining(ts, pos),
{
    reveal(program_from);
    if kind_at(ts, pos) != TokenKind::Eof {
        lemma_consumes(ts, pos);
        lemma_declaration_valid(ts, pos);
        match declaration_at(ts, pos) {
            Ok((s, n)) => {
                let rest = program_from(ts, pos + n).0;
                lemma_program_valid(ts, pos + n);
                lemma_valid_shift(s, rest, 0);
                assert((seq![s] + rest)[0] == s);
            },
            Err(f) => {
                crate::parser::lemma_synchronize_bounds(ts, f.position + 1);
                lemma_program_valid(ts, crate::parser::recovery_point(ts, f.position));
            },
        }
    }
}

/// The parser gives valid statements only: every expression is well formed,
/// no declaration stands as a branch or as the body of a loop, and no `if`
/// without `else` stands before an `else`.
pub proof fn lemma_parse_gives_valid(ts: Seq<SpecToken>)
    ensures
        match parsed(ts) {
            Ok(statements) => valid_items(statements, 0),
            Err(_) => true,
        },
{
    lemma_program_valid(ts, 0);
}

} // verus!
