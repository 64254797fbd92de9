//! The scanner: source text to tokens.
//!
//! Scanning is one pass from left to right. It stops at the first lexical
//! error: a character that starts no token, a string without its closing
//! quote, or a numeral that denotes no number.

use vstd::prelude::*;
use crate::number::{numeral_value, Number, NumeralError};
use crate::text::{
    chars_of, is_alpha, is_alpha_char, is_alphanumeric, is_alphanumeric_char, is_digit,
    is_digit_char, string_of_range,
};
use crate::token::{tokens_view, SpecLiteral, SpecToken, Token, TokenKind};

verus! {

/// What went wrong in the source.
#[derive(Debug, PartialEq, Eq)]
pub enum ScanErrorType {
    /// A character that starts no token.
    BadChar(char),
    /// A string that is still open at the end of the source, with its content
    /// so far.
    UnterminatedString(String),
    /// A numeral that denotes no number, with its text and the reason.
    NumberParseError(String, NumeralError),
}

/// The mathematical model of a `ScanErrorType`.
pub enum SpecScanErrorType {
    BadChar(char),
    UnterminatedString(Seq<char>),
    NumberParseError(Seq<char>, NumeralError),
}

impl View for ScanErrorType {
    type V = SpecScanErrorType;

    open spec fn view(&self) -> SpecScanErrorType {
        match self {
            ScanErrorType::BadChar(c) => SpecScanErrorType::BadChar(*c),
            ScanErrorType::UnterminatedString(s) => SpecScanErrorType::UnterminatedString(s@),
            ScanErrorType::NumberParseError(s, e) => SpecScanErrorType::NumberParseError(s@, *e),
        }
    }
}

/// A lexical error: its cause, the line it is on, and the offset of the first
/// character of the offending lexeme.
#[derive(Debug, PartialEq, Eq)]
pub struct ScanError {
    pub cause: ScanErrorType,
    pub line: u32,
    pub position: usize,
}

/// The mathematical model of a `ScanError`.
pub struct SpecScanError {
    pub cause: SpecScanErrorType,
    pub line: u32,
    pub position: usize,
}

impl View for ScanError {
    type V = SpecScanError;

    open spec fn view(&self) -> SpecScanError {
        SpecScanError { cause: self.cause@, line: self.line, position: self.position }
    }
}

/// The sets of characters that lexemes are made of.
#[derive(Clone, Copy, Debug, PartialEq, Eq, Structural)]
pub enum CharClass {
    /// Letters, digits and the underscore.
    Alphanumeric,
    /// Digits and the decimal point.
    Numeral,
    /// Everything but the double quote.
    StringContent,
    /// Everything but the line feed.
    CommentContent,
}

/// Whether `c` belongs to `class`.
pub open spec fn in_class(class: CharClass, c: char) -> bool {
    match class {
        CharClass::Alphanumeric => is_alphanumeric_char(c),
        CharClass::Numeral => is_digit_char(c) || c == '.',
        CharClass::StringContent => c != '"',
        CharClass::CommentContent => c != '\n',
    }
}

/// The length of the longest run of characters of `class` that starts at
/// `from`.
pub open spec fn run_length(src: Seq<char>, from: int, class: CharClass) -> nat
    decreases src.len() - from,
{
    if 0 <= from < src.len() && in_class(class, src[from]) {
        1 + run_length(src, from + 1, class)
    } else {
        0
    }
}

/// The line after `line`. Line numbers stop at `u32::MAX`.
pub open spec fn next_line(line: u32) -> u32 {
    if line < u32::MAX {
        (line + 1) as u32
    } else {
        line
    }
}

/// The line reached from `line` after the characters `s`: one more for each
/// line feed.
pub open spec fn line_after(line: u32, s: Seq<char>) -> u32
    decreases s.len(),
{
    if s.len() == 0 {
        line
    } else if s.last() == '\n' {
        next_line(line_after(line, s.drop_last()))
    } else {
        line_after(line, s.drop_last())
    }
}

/// The kind of the token that the single character `c` is, if it is one.
pub open spec fn punctuation_kind(c: char) -> Option<TokenKind> {
    if c == '(' {
        Some(TokenKind::LeftParen)
    } else if c == ')' {
        Some(TokenKind::RightParen)
    } else if c == '{' {
        Some(TokenKind::LeftBrace)
    } else if c == '}' {
        Some(TokenKind::RightBrace)
    } else if c == ',' {
        Some(TokenKind::Comma)
    } else if c == '.' {
        Some(TokenKind::Dot)
    } else if c == '-' {
        Some(TokenKind::Minus)
    } else if c == '+' {
        Some(TokenKind::Plus)
    } else if c == ';' {
        Some(TokenKind::Semicolon)
    } else if c == '*' {
        Some(TokenKind::Star)
    } else {
        None
    }
}

/// For a character that forms one operator alone and another when `=` follows
/// it: the two kinds, the single one first.
pub open spec fn operator_kinds(c: char) -> Option<(TokenKind, TokenKind)> {
    if c == '!' {
        Some((TokenKind::Bang, TokenKind::BangEqual))
    } else if c == '=' {
        Some((TokenKind::Equal, TokenKind::EqualEqual))
    } else if c == '<' {
        Some((TokenKind::Less, TokenKind::LessEqual))
    } else if c == '>' {
        Some((TokenKind::Greater, TokenKind::GreaterEqual))
    } else {
        None
    }
}

/// The kind of the word `text`: that of the keyword it spells, or
/// `Identifier`.
pub open spec fn keyword_kind(text: Seq<char>) -> TokenKind {
    if text == seq!['a', 'n', 'd'] {
        TokenKind::And
    } else if text == seq!['c', 'l', 'a', 's', 's'] {
        TokenKind::Class
    } else if text == seq!['e', 'l', 's', 'e'] {
        TokenKind::Else
    } else if text == seq!['f', 'a', 'l', 's', 'e'] {
        TokenKind::False
    } else if text == seq!['f', 'o', 'r'] {
        TokenKind::For
    } else if text == seq!['f', 'u', 'n'] {
        TokenKind::Fun
    } else if text == seq!['i', 'f'] {
        TokenKind::If
    } else if text == seq!['n', 'i', 'l'] {
        TokenKind::Nil
    } else if text == seq!['o', 'r'] {
        TokenKind::Or
    } else if text == seq!['p', 'r', 'i', 'n', 't'] {
        TokenKind::Print
    } else if text == seq!['r', 'e', 't', 'u', 'r', 'n'] {
        TokenKind::Return
    } else if text == seq!['s', 'u', 'p', 'e', 'r'] {
        TokenKind::Super
    } else if text == seq!['t', 'h', 'i', 's'] {
        TokenKind::This
    } else if text == seq!['t', 'r', 'u', 'e'] {
        TokenKind::True
    } else if text == seq!['v', 'a', 'r'] {
        TokenKind::Var
    } else if text == seq!['w', 'h', 'i', 'l', 'e'] {
        TokenKind::While
    } else {
        TokenKind::Identifier
    }
}

/// What the scanner does at one place in the source.
pub enum SpecStep {
    /// The source ends here.
    Done,
    /// Blank space or a comment: go on at `next`, on line `line`.
    Skip { next: int, line: u32 },
    /// A token: go on at `next`, on line `line`.
    Emit { token: SpecToken, next: int, line: u32 },
    /// A lexical error.
    Fail(SpecScanError),
}

/// The step that the scanner takes at offset `i` of `src`, on line `line`.
pub open spec fn lex_step(src: Seq<char>, i: int, line: u32) -> SpecStep {
    if i < 0 || i >= src.len() {
        SpecStep::Done
    } else {
        let c = src[i];
        let position = i as usize;
        let equal_follows = i + 1 < src.len() && src[i + 1] == '=';
        if c == ' ' || c == '\r' || c == '\t' {
            SpecStep::Skip { next: i + 1, line }
        } else if c == '\n' {
            SpecStep::Skip { next: i + 1, line: next_line(line) }
        } else if let Some(kind) = punctuation_kind(c) {
            SpecStep::Emit {
                token: SpecToken { kind, literal: None, line, position },
                next: i + 1,
                line,
            }
        } else if let Some(kinds) = operator_kinds(c) {
            if equal_follows {
                SpecStep::Emit {
                    token: SpecToken { kind: kinds.1, literal: None, line, position },
                    next: i + 2,
                    line,
                }
            } else {
                SpecStep::Emit {
                    token: SpecToken { kind: kinds.0, literal: None, line, position },
                    next: i + 1,
                    line,
                }
            }
        } else if c == '/' {
            if i + 1 < src.len() && src[i + 1] == '/' {
                SpecStep::Skip {
                    next: i + 2 + run_length(src, i + 2, CharClass::CommentContent),
                    line,
                }
            } else {
                SpecStep::Emit {
                    token: SpecToken { kind: TokenKind::Slash, literal: None, line, position },
                    next: i + 1,
                    line,
                }
            }
        } else if c == '"' {
            let close = i + 1 + run_length(src, i + 1, CharClass::StringContent);
            let content = src.subrange(i + 1, close);
            if close >= src.len() {
                SpecStep::Fail(
                    SpecScanError {
                        cause: SpecScanErrorType::UnterminatedString(content),
                        line,
                        position,
                    },
                )
            } else {
                SpecStep::Emit {
                    token: SpecToken {
                        kind: TokenKind::Str,
                        literal: Some(SpecLiteral::Text(content)),
                        line,
                        position,
                    },
                    next: close + 1,
                    line: line_after(line, content),
                }
            }
        } else if is_digit_char(c) {
            let end = i + 1 + run_length(src, i + 1, CharClass::Numeral);
            let text = src.subrange(i, end);
            match numeral_value(text) {
                Ok(value) => SpecStep::Emit {
                    token: SpecToken {
                        kind: TokenKind::Number,
                        literal: Some(SpecLiteral::Number(value)),
                        line,
                        position,
                    },
                    next: end,
                    line,
                },
                Err(reason) => SpecStep::Fail(
                    SpecScanError {
                        cause: SpecScanErrorType::NumberParseError(text, reason),
                        line,
                        position,
                    },
                ),
            }
        } else if is_alpha_char(c) {
            let end = i + 1 + run_length(src, i + 1, CharClass::Alphanumeric);
            let text = src.subrange(i, end);
            let kind = keyword_kind(text);
            SpecStep::Emit {
                token: SpecToken {
                    kind,
                    literal: if kind == TokenKind::Identifier {
                        Some(SpecLiteral::Text(text))
                    } else {
                        None
                    },
                    line,
                    position,
                },
                next: end,
                line,
            }
        } else {
            SpecStep::Fail(
                SpecScanError { cause: SpecScanErrorType::BadChar(c), line, position },
            )
        }
    }
}

/// The tokens `head`, then what `rest` holds.
pub open spec fn followed_by(
    head: Seq<SpecToken>,
    rest: Result<Seq<SpecToken>, SpecScanError>,
) -> Result<Seq<SpecToken>, SpecScanError> {
    match rest {
        Ok(tokens) => Ok(head + tokens),
        Err(e) => Err(e),
    }
}

/// The token that ends every token sequence.
pub open spec fn end_token(src: Seq<char>, line: u32) -> SpecToken {
    SpecToken { kind: TokenKind::Eof, literal: None, line, position: src.len() as usize }
}

/// The tokens of `src` from offset `i` on, which is on line `line`, or the
/// first lexical error from there on.
pub open spec fn scan_from(src: Seq<char>, i: int, line: u32) -> Result<
    Seq<SpecToken>,
    SpecScanError,
>
    decreases src.len() - i,
{
    match lex_step(src, i, line) {
        SpecStep::Done => Ok(seq![end_token(src, line)]),
        SpecStep::Skip { next, line: l } => {
            proof {
                lemma_run_length_bound(src, i + 2, CharClass::CommentContent);
            }
            scan_from(src, next, l)
        },
        SpecStep::Emit { token, next, line: l } => {
            proof {
                lemma_run_length_bound(src, i + 1, CharClass::StringContent);
                lemma_run_length_bound(src, i + 1, CharClass::Numeral);
                lemma_run_length_bound(src, i + 1, CharClass::Alphanumeric);
            }
            followed_by(seq![token], scan_from(src, next, l))
        },
        SpecStep::Fail(e) => Err(e),
    }
}

/// The tokens of `source`, ending with `Eof`, or its first lexical error.
pub open spec fn tokens_of(source: Seq<char>) -> Result<Seq<SpecToken>, SpecScanError> {
    scan_from(source, 0, 1)
}

/// The model of what `scan` returns.
pub open spec fn scan_result_view(r: Result<Vec<Token>, ScanError>) -> Result<
    Seq<SpecToken>,
    SpecScanError,
> {
    match r {
        Ok(tokens) => Ok(tokens_view(tokens@)),
        Err(e) => Err(e@),
    }
}

/// A run that starts inside the source ends inside it.
pub proof fn lemma_run_length_bound(src: Seq<char>, from: int, class: CharClass)
    ensures
        0 <= from <= src.len() ==> from + run_length(src, from, class) <= src.len(),
        from > src.len() ==> run_length(src, from, class) == 0,
    decreases src.len() - from,
{
    if 0 <= from < src.len() && in_class(class, src[from]) {
        lemma_run_length_bound(src, from + 1, class);
    }
}

/// Every step that goes on does so further right, and not beyond the end.
pub proof fn lemma_step_advances(src: Seq<char>, i: int, line: u32)
    ensures
        match lex_step(src, i, line) {
            SpecStep::Skip { next, .. } => i < next <= src.len(),
            SpecStep::Emit { next, .. } => i < next <= src.len(),
            _ => true,
        },
{
    lemma_run_length_bound(src, i + 2, CharClass::CommentContent);
    lemma_run_length_bound(src, i + 1, CharClass::StringContent);
    lemma_run_length_bound(src, i + 1, CharClass::Numeral);
    lemma_run_length_bound(src, i + 1, CharClass::Alphanumeric);
}

fn class_holds(class: CharClass, c: char) -> (b: bool)
    ensures
        b == in_class(class, c),
{
    match class {
        CharClass::Alphanumeric => is_alphanumeric(c),
        CharClass::Numeral => is_digit(c) || c == '.',
        CharClass::StringContent => c != '"',
        CharClass::CommentContent => c != '\n',
    }
}

/// The end of the longest run of characters of `class` that starts at `from`.
fn run_end(chars: &Vec<char>, from: usize, class: CharClass) -> (end: usize)
    requires
        from <= chars.len(),
    ensures
        end == from + run_length(chars@, from as int, class),
        from <= end <= chars.len(),
{
    let mut end: usize = from;
    while end < chars.len() && class_holds(class, chars[end])
        invariant
            from <= end <= chars.len(),
            from + run_length(chars@, from as int, class) == end + run_length(
                chars@,
                end as int,
                class,
            ),
        decreases chars.len() - end,
    {
        end += 1;
    }
    end
}

/// The line reached from `line` after the characters from `start` up to `end`.
fn line_after_range(chars: &Vec<char>, start: usize, end: usize, line: u32) -> (l: u32)
    requires
        start <= end <= chars.len(),
    ensures
        l == line_after(line, chars@.subrange(start as int, end as int)),
{
    let ghost s = chars@.subrange(start as int, end as int);
    let mut l: u32 = line;
    let mut k: usize = start;
    while k < end
        invariant
            start <= k <= end <= chars.len(),
            s == chars@.subrange(start as int, end as int),
            l == line_after(line, s.take(k - start)),
        decreases end - k,
    {
        proof {
            assert(s.take(k - start + 1).drop_last() =~= s.take(k - start));
        }
        if chars[k] == '\n' && l < u32::MAX {
            l += 1;
        }
        k += 1;
    }
    assert(s.take(end - start) =~= s);
    l
}

fn punctuation(c: char) -> (k: Option<TokenKind>)
    ensures
        k == punctuation_kind(c),
{
    if c == '(' {
        Some(TokenKind::LeftParen)
    } else if c == ')' {
        Some(TokenKind::RightParen)
    } else if c == '{' {
        Some(TokenKind::LeftBrace)
    } else if c == '}' {
        Some(TokenKind::RightBrace)
    } else if c == ',' {
        Some(TokenKind::Comma)
    } else if c == '.' {
        Some(TokenKind::Dot)
    } else if c == '-' {
        Some(TokenKind::Minus)
    } else if c == '+' {
        Some(TokenKind::Plus)
    } else if c == ';' {
        Some(TokenKind::Semicolon)
    } else if c == '*' {
        Some(TokenKind::Star)
    } else {
        None
    }
}

fn operators(c: char) -> (k: Option<(TokenKind, TokenKind)>)
    ensures
        k == operator_kinds(c),
{
    if c == '!' {
        Some((TokenKind::Bang, TokenKind::BangEqual))
    } else if c == '=' {
        Some((TokenKind::Equal, TokenKind::EqualEqual))
    } else if c == '<' {
        Some((TokenKind::Less, TokenKind::LessEqual))
    } else if c == '>' {
        Some((TokenKind::Greater, TokenKind::GreaterEqual))
    } else {
        None
    }
}

/// Whether the characters from `start` up to `end` spell `word`.
fn spells(chars: &Vec<char>, start: usize, end: usize, word: &Vec<char>) -> (b: bool)
    requires
        start <= end <= chars.len(),
    ensures
        b == (chars@.subrange(start as int, end as int) == word@),
{
    let ghost text = chars@.subrange(start as int, end as int);
    if end - start != word.len() {
        return false;
    }
    let mut k: usize = 0;
    while k < word.len()
        invariant
            start <= end <= chars.len(),
            end - start == word.len(),
            k <= word.len(),
            text == chars@.subrange(start as int, end as int),
            forall|j: int| 0 <= j < k ==> text[j] == word@[j],
        decreases word.len() - k,
    {
        if chars[start + k] != word[k] {
            assert(text[k as int] != word@[k as int]);
            return false;
        }
        k += 1;
    }
    assert(text =~= word@);
    true
}

/// The kind of the word from `start` up to `end`.
fn word_kind(chars: &Vec<char>, start: usize, end: usize) -> (k: TokenKind)
    requires
        start <= end <= chars.len(),
    ensures
        k == keyword_kind(chars@.subrange(start as int, end as int)),
{
    if spells(chars, start, end, &vec!['a', 'n', 'd']) {
        TokenKind::And
    } else if spells(chars, start, end, &vec!['c', 'l', 'a', 's', 's']) {
        TokenKind::Class
    } else if spells(chars, start, end, &vec!['e', 'l', 's', 'e']) {
        TokenKind::Else
    } else if spells(chars, start, end, &vec!['f', 'a', 'l', 's', 'e']) {
        TokenKind::False
    } else if spells(chars, start, end, &vec!['f', 'o', 'r']) {
        TokenKind::For
    } else if spells(chars, start, end, &vec!['f', 'u', 'n']) {
        TokenKind::Fun
    } else if spells(chars, start, end, &vec!['i', 'f']) {
        TokenKind::If
    } else if spells(chars, start, end, &vec!['n', 'i', 'l']) {
        TokenKind::Nil
    } else if spells(chars, start, end, &vec!['o', 'r']) {
        TokenKind::Or
    } else if spells(chars, start, end, &vec!['p', 'r', 'i', 'n', 't']) {
        TokenKind::Print
    } else if spells(chars, start, end, &vec!['r', 'e', 't', 'u', 'r', 'n']) {
        TokenKind::Return
    } else if spells(chars, start, end, &vec!['s', 'u', 'p', 'e', 'r']) {
        TokenKind::Super
    } else if spells(chars, start, end, &vec!['t', 'h', 'i', 's']) {
        TokenKind::This
    } else if spells(chars, start, end, &vec!['t', 'r', 'u', 'e']) {
        TokenKind::True
    } else if spells(chars, start, end, &vec!['v', 'a', 'r']) {
        TokenKind::Var
    } else if spells(chars, start, end, &vec!['w', 'h', 'i', 'l', 'e']) {
        TokenKind::While
    } else {
        TokenKind::Identifier
    }
}

/// What the scanner does at one place in the source.
pub enum Step {
    Done,
    Skip { next: usize, line: u32 },
    Emit { token: Token, next: usize, line: u32 },
    Fail(ScanError),
}

impl View for Step {
    type V = SpecStep;

    open spec fn view(&self) -> SpecStep {
        match self {
            Step::Done => SpecStep::Done,
            Step::Skip { next, line } => SpecStep::Skip { next: *next as int, line: *line },
            Step::Emit { token, next, line } => SpecStep::Emit {
                token: token@,
                next: *next as int,
                line: *line,
            },
            Step::Fail(e) => SpecStep::Fail(e@),
        }
    }
}

/// Takes the step at offset `i` of `chars`, on line `line`.
#[verifier::rlimit(40)]
pub fn step(chars: &Vec<char>, i: usize, line: u32) -> (s: Step)
    requires
        i <= chars.len(),
    ensures
        s@ == lex_step(chars@, i as int, line),
{
    if i >= chars.len() {
        return Step::Done;
    }
    let c: char = chars[i];
    let equal_follows: bool = i + 1 < chars.len() && chars[i + 1] == '=';
    if c == ' ' || c == '\r' || c == '\t' {
        return Step::Skip { next: i + 1, line };
    }
    if c == '\n' {
        let l: u32 = if line < u32::MAX {
            line + 1
        } else {
            line
        };
        return Step::Skip { next: i + 1, line: l };
    }
    if let Some(kind) = punctuation(c) {
        return Step::Emit { token: Token::plain(kind, line, i), next: i + 1, line };
    }
    if let Some(kinds) = operators(c) {
        if equal_follows {
            return Step::Emit { token: Token::plain(kinds.1, line, i), next: i + 2, line };
        } else {
            return Step::Emit { token: Token::plain(kinds.0, line, i), next: i + 1, line };
        }
    }
    if c == '/' {
        if i + 1 < chars.len() && chars[i + 1] == '/' {
            let next: usize = run_end(chars, i + 2, CharClass::CommentContent);
            return Step::Skip { next, line };
        } else {
            return Step::Emit { token: Token::plain(TokenKind::Slash, line, i), next: i + 1, line };
        }
    }
    if c == '"' {
        let close: usize = run_end(chars, i + 1, CharClass::StringContent);
        let content: String = string_of_range(chars, i + 1, close);
        if close >= chars.len() {
            return Step::Fail(
                ScanError { cause: ScanErrorType::UnterminatedString(content), line, position: i },
            );
        }
        let l: u32 = line_after_range(chars, i + 1, close, line);
        return Step::Emit {
            token: Token::with_text(TokenKind::Str, content, line, i),
            next: close + 1,
            line: l,
        };
    }
    if is_digit(c) {
        let end: usize = run_end(chars, i + 1, CharClass::Numeral);
        return match Number::parse(chars, i, end) {
            Ok(value) => Step::Emit { token: Token::with_number(value, line, i), next: end, line },
            Err(reason) => Step::Fail(
                ScanError {
                    cause: ScanErrorType::NumberParseError(string_of_range(chars, i, end), reason),
                    line,
                    position: i,
                },
            ),
        };
    }
    if is_alpha(c) {
        let end: usize = run_end(chars, i + 1, CharClass::Alphanumeric);
        let kind: TokenKind = word_kind(chars, i, end);
        let token: Token = if kind == TokenKind::Identifier {
            Token::with_text(kind, string_of_range(chars, i, end), line, i)
        } else {
            Token::plain(kind, line, i)
        };
        return Step::Emit { token, next: end, line };
    }
    Step::Fail(ScanError { cause: ScanErrorType::BadChar(c), line, position: i })
}

/// Scans `source` into its tokens, the last of which is `Eof`, or reports the
/// first lexical error.
pub fn scan(source: &str) -> (r: Result<Vec<Token>, ScanError>)
    ensures
        scan_result_view(r) == tokens_of(source@),
{
    let chars: Vec<char> = chars_of(source);
    let mut tokens: Vec<Token> = Vec::new();
    let mut i: usize = 0;
    let mut line: u32 = 1;
    loop
        invariant
            i <= chars.len(),
            chars@ == source@,
            tokens_of(source@) == followed_by(
                tokens_view(tokens@),
                scan_from(chars@, i as int, line),
            ),
        decreases chars.len() - i,
    {
        proof {
            lemma_step_advances(chars@, i as int, line);
        }
        let ghost before = tokens_view(tokens@);
        match step(&chars, i, line) {
            Step::Done => {
                let end: Token = Token::plain(TokenKind::Eof, line, i);
                tokens.push(end);
                assert(tokens_view(tokens@) =~= before + seq![end_token(chars@, line)]);
                return Ok(tokens);
            },
            Step::Skip { next, line: l } => {
                i = next;
                line = l;
            },
            Step::Emit { token, next, line: l } => {
                let ghost rest = scan_from(chars@, next as int, l);
                tokens.push(token);
                proof {
                    assert(tokens_view(tokens@) =~= before + seq![token@]);
                    if let Ok(ts) = rest {
                        assert(before + (seq![token@] + ts) =~= (before + seq![token@]) + ts);
                    }
                }
                i = next;
                line = l;
            },
            Step::Fail(e) => {
                return Err(e);
            },
        }
    }
}

/// Whether the scan that stands at offset `i` on line `line` comes to stand
/// at offset `j` on line `line_j`: whether a lexeme, a comment or a blank
/// starts at `j`, or the input ends there.
pub open spec fn reaches(src: Seq<char>, i: int, line: u32, j: int, line_j: u32) -> bool
    decreases src.len() - i,
{
    if i == j {
        line == line_j
    } else if i > j {
        false
    } else {
        match lex_step(src, i, line) {
            SpecStep::Skip { next, line: l } => {
                proof {
                    lemma_step_advances(src, i, line);
                }
                reaches(src, next, l, j, line_j)
            },
            SpecStep::Emit { token, next, line: l } => {
                proof {
                    lemma_step_advances(src, i, line);
                }
                reaches(src, next, l, j, line_j)
            },
            _ => false,
        }
    }
}

/// Whether a lexeme starts at offset `j`, on line `line`, when `src` is
/// scanned from its start.
pub open spec fn lexeme_starts(src: Seq<char>, j: int, line: u32) -> bool {
    reaches(src, 0, 1, j, line)
}

/// Whether a token, a comment or a blank can start with `c`.
pub open spec fn starts_lexeme(c: char) -> bool {
    c == ' ' || c == '\r' || c == '\t' || c == '\n' || punctuation_kind(c) is Some
        || operator_kinds(c) is Some || c == '/' || c == '"' || is_digit_char(c) || is_alpha_char(
        c,
    )
}

/// The numeral that starts at offset `i`: the longest run of digits and
/// decimal points from there.
pub open spec fn numeral_at(src: Seq<char>, i: int) -> Seq<char> {
    src.subrange(i, i + 1 + run_length(src, i + 1, CharClass::Numeral))
}

/// Whether the lexeme that starts at offset `i` is in order: its first
/// character can start a lexeme, a string has its closing quote, and a
/// numeral denotes a number.
pub open spec fn lexeme_in_order(src: Seq<char>, i: int) -> bool {
    0 <= i < src.len() ==> {
        &&& starts_lexeme(src[i])
        &&& src[i] == '"' ==> exists|k: int| i < k < src.len() && src[k] == '"'
        &&& is_digit_char(src[i]) ==> numeral_value(numeral_at(src, i)) is Ok
    }
}

/// A run ends at the first character that is not of its class, or at the end.
pub proof fn lemma_run_members(src: Seq<char>, from: int, class: CharClass)
    requires
        0 <= from <= src.len(),
    ensures
        forall|k: int|
            from <= k < from + run_length(src, from, class) ==> in_class(class, #[trigger] src[k]),
        from + run_length(src, from, class) < src.len() ==> !in_class(
            class,
            src[from + run_length(src, from, class)],
        ),
        from + run_length(src, from, class) <= src.len(),
    decreases src.len() - from,
{
    if from < src.len() && in_class(class, src[from]) {
        lemma_run_members(src, from + 1, class);
    }
}

/// A step fails exactly where the lexeme is not in order.
pub proof fn lemma_failure_causes(src: Seq<char>, i: int, line: u32)
    ensures
        lex_step(src, i, line) is Fail <==> !lexeme_in_order(src, i),
{
    if 0 <= i < src.len() {
        let c = src[i];
        if c == '"' {
            lemma_run_members(src, i + 1, CharClass::StringContent);
            let close = i + 1 + run_length(src, i + 1, CharClass::StringContent);
            if close < src.len() {
                assert(src[close] == '"');
            }
        }
    }
}

/// From where the scan comes to stand at `j`, it comes to stand where the
/// step at `j` leads.
proof fn lemma_reaches_extend(src: Seq<char>, i: int, line: u32, j: int, line_j: u32)
    requires
        reaches(src, i, line, j, line_j),
    ensures
        match lex_step(src, j, line_j) {
            SpecStep::Skip { next, line: l } => reaches(src, i, line, next, l),
            SpecStep::Emit { next, line: l, .. } => reaches(src, i, line, next, l),
            _ => true,
        },
    decreases src.len() - i,
{
    lemma_step_advances(src, j, line_j);
    if i == j {
        match lex_step(src, j, line_j) {
            SpecStep::Skip { next, line: l } => {
                assert(reaches(src, next, l, next, l));
            },
            SpecStep::Emit { next, line: l, .. } => {
                assert(reaches(src, next, l, next, l));
            },
            _ => {},
        }
    } else {
        lemma_step_advances(src, i, line);
        match lex_step(src, i, line) {
            SpecStep::Skip { next, line: l } => {
                lemma_reaches_extend(src, next, l, j, line_j);
            },
            SpecStep::Emit { next, line: l, .. } => {
                lemma_reaches_extend(src, next, l, j, line_j);
            },
            _ => {},
        }
    }
}

/// An error at a place where the scan comes to stand is the error of the
/// scan.
proof fn lemma_error_propagates(src: Seq<char>, i: int, line: u32, j: int, line_j: u32)
    requires
        reaches(src, i, line, j, line_j),
        scan_from(src, j, line_j) is Err,
    ensures
        scan_from(src, i, line) == scan_from(src, j, line_j),
    decreases src.len() - i,
{
    if i != j {
        lemma_step_advances(src, i, line);
        match lex_step(src, i, line) {
            SpecStep::Skip { next, line: l } => {
                lemma_error_propagates(src, next, l, j, line_j);
            },
            SpecStep::Emit { next, line: l, .. } => {
                lemma_error_propagates(src, next, l, j, line_j);
            },
            _ => {},
        }
    }
}

proof fn lemma_scan_succeeds_from(src: Seq<char>, i: int, line: u32)
    requires
        0 <= i <= src.len(),
        lexeme_starts(src, i, line),
        forall|j: int, l: u32| lexeme_starts(src, j, l) ==> lexeme_in_order(src, j),
    ensures
        scan_from(src, i, line) is Ok,
    decreases src.len() - i,
{
    lemma_step_advances(src, i, line);
    lemma_failure_causes(src, i, line);
    lemma_reaches_extend(src, 0, 1, i, line);
    assert(lexeme_in_order(src, i));
    match lex_step(src, i, line) {
        SpecStep::Skip { next, line: l } => {
            lemma_scan_succeeds_from(src, next, l);
        },
        SpecStep::Emit { next, line: l, .. } => {
            lemma_scan_succeeds_from(src, next, l);
        },
        _ => {},
    }
}

/// A source in which every lexeme is in order scans without error: each
/// lexeme starts with a character that can start one, each string has its
/// closing quote, and each numeral denotes a number.
pub proof fn lemma_scan_succeeds(src: Seq<char>)
    requires
        forall|j: int, l: u32| lexeme_starts(src, j, l) ==> lexeme_in_order(src, j),
    ensures
        tokens_of(src) is Ok,
{
    lemma_scan_succeeds_from(src, 0, 1);
}

/// A source whose scan succeeds has every lexeme in order.
pub proof fn lemma_scan_fails(src: Seq<char>, j: int, line: u32)
    requires
        lexeme_starts(src, j, line),
        !lexeme_in_order(src, j),
    ensures
        tokens_of(src) is Err,
{
    lemma_failure_causes(src, j, line);
    lemma_error_propagates(src, 0, 1, j, line);
}

/// A string that starts at offset `j` on line `line` and has no closing quote
/// before the end of the source makes the scan fail with
/// `UnterminatedString`, with the rest of the source as its text, on the line
/// and at the offset of the opening quote.
pub proof fn lemma_unterminated_string(src: Seq<char>, j: int, line: u32)
    requires
        lexeme_starts(src, j, line),
        0 <= j < src.len(),
        src[j] == '"',
        forall|k: int| j < k < src.len() ==> src[k] != '"',
    ensures
        tokens_of(src) == Err::<Seq<SpecToken>, SpecScanError>(
            SpecScanError {
                cause: SpecScanErrorType::UnterminatedString(src.subrange(j + 1, src.len() as int)),
                line,
                position: j as usize,
            },
        ),
{
    lemma_run_members(src, j + 1, CharClass::StringContent);
    let close = j + 1 + run_length(src, j + 1, CharClass::StringContent);
    if close < src.len() {
        assert(src[close] == '"');
    }
    lemma_error_propagates(src, 0, 1, j, line);
}

/// A numeral that starts at offset `j` on line `line` and denotes no number
/// makes the scan fail with `NumberParseError`, with the whole numeral as
/// its text.
pub proof fn lemma_bad_numeral(src: Seq<char>, j: int, line: u32)
    requires
        lexeme_starts(src, j, line),
        0 <= j < src.len(),
        is_digit_char(src[j]),
        numeral_value(numeral_at(src, j)) is Err,
    ensures
        tokens_of(src) == Err::<Seq<SpecToken>, SpecScanError>(
            SpecScanError {
                cause: SpecScanErrorType::NumberParseError(
                    numeral_at(src, j),
                    numeral_value(numeral_at(src, j))->Err_0,
                ),
                line,
                position: j as usize,
            },
        ),
{
    lemma_error_propagates(src, 0, 1, j, line);
}

/// A bad character at offset `j` on line `line`, where a lexeme should
/// start, makes the scan fail with `BadChar`.
pub proof fn lemma_bad_character(src: Seq<char>, j: int, line: u32)
    requires
        lexeme_starts(src, j, line),
        0 <= j < src.len(),
        !starts_lexeme(src[j]),
    ensures
        tokens_of(src) == Err::<Seq<SpecToken>, SpecScanError>(
            SpecScanError {
                cause: SpecScanErrorType::BadChar(src[j]),
                line,
                position: j as usize,
            },
        ),
{
    lemma_error_propagates(src, 0, 1, j, line);
}

/// The characters `a`, then the characters `b`, advance the line as `a` and
/// then `b` do.
pub proof fn lemma_line_after_concat(line: u32, a: Seq<char>, b: Seq<char>)
    ensures
        line_after(line, a + b) == line_after(line_after(line, a), b),
    decreases b.len(),
{
    if b.len() == 0 {
        assert(a + b =~= a);
    } else {
        lemma_line_after_concat(line, a, b.drop_last());
        assert((a + b).drop_last() =~= a + b.drop_last());
    }
}

/// Characters other than the line feed leave the line as it is.
pub proof fn lemma_line_after_plain(line: u32, s: Seq<char>)
    requires
        forall|k: int| 0 <= k < s.len() ==> s[k] != '\n',
    ensures
        line_after(line, s) == line,
    decreases s.len(),
{
    if s.len() > 0 {
        lemma_line_after_plain(line, s.drop_last());
    }
}

/// A step advances the line by the line feeds among the characters that it
/// passes.
#[verifier::rlimit(40)]
proof fn lemma_step_line(src: Seq<char>, i: int, line: u32)
    requires
        0 <= i < src.len(),
    ensures
        match lex_step(src, i, line) {
            SpecStep::Skip { next, line: l } => l == line_after(line, src.subrange(i, next)),
            SpecStep::Emit { next, line: l, .. } => l == line_after(line, src.subrange(i, next)),
            _ => true,
        },
{
    lemma_step_advances(src, i, line);
    let c = src[i];
    match lex_step(src, i, line) {
        SpecStep::Skip { next, line: l } => {
            let passed = src.subrange(i, next);
            if c == '\n' {
                assert(passed.drop_last() =~= Seq::<char>::empty());
                assert(line_after(line, passed.drop_last()) == line);
            } else if c == '/' {
                lemma_run_members(src, i + 2, CharClass::CommentContent);
                assert forall|k: int| 0 <= k < passed.len() implies passed[k] != '\n' by {
                    if k >= 2 {
                        assert(in_class(CharClass::CommentContent, src[i + k]));
                    }
                }
                lemma_line_after_plain(line, passed);
            } else {
                lemma_line_after_plain(line, passed);
            }
        },
        SpecStep::Emit { next, line: l, .. } => {
            let passed = src.subrange(i, next);
            if c == '"' {
                let close = i + 1 + run_length(src, i + 1, CharClass::StringContent);
                let content = src.subrange(i + 1, close);
                let quote = seq!['"'];
                lemma_run_members(src, i + 1, CharClass::StringContent);
                assert(src[close] == '"');
                assert(passed =~= quote + content + quote);
                lemma_line_after_concat(line, quote + content, quote);
                lemma_line_after_concat(line, quote, content);
                lemma_line_after_plain(line, quote);
                lemma_line_after_plain(line_after(line, content), quote);
            } else if is_digit_char(c) && punctuation_kind(c) is None && operator_kinds(c) is None {
                lemma_run_members(src, i + 1, CharClass::Numeral);
                assert forall|k: int| 0 <= k < passed.len() implies passed[k] != '\n' by {
                    if k >= 1 {
                        assert(in_class(CharClass::Numeral, src[i + k]));
                    }
                }
                lemma_line_after_plain(line, passed);
            } else if is_alpha_char(c) && punctuation_kind(c) is None && operator_kinds(c) is None
                && c != '/' {
                lemma_run_members(src, i + 1, CharClass::Alphanumeric);
                assert forall|k: int| 0 <= k < passed.len() implies passed[k] != '\n' by {
                    if k >= 1 {
                        assert(in_class(CharClass::Alphanumeric, src[i + k]));
                    }
                }
                lemma_line_after_plain(line, passed);
            } else {
                lemma_line_after_plain(line, passed);
            }
        },
        _ => {},
    }
}

proof fn lemma_line_between(src: Seq<char>, i: int, line: u32, j: int, line_j: u32)
    requires
        0 <= i,
        j <= src.len(),
        reaches(src, i, line, j, line_j),
    ensures
        i <= j,
        line_j == line_after(line, src.subrange(i, j)),
    decreases src.len() - i,
{
    if i != j {
        lemma_step_advances(src, i, line);
        lemma_step_line(src, i, line);
        match lex_step(src, i, line) {
            SpecStep::Skip { next, line: l } => {
                lemma_line_between(src, next, l, j, line_j);
                lemma_line_after_concat(line, src.subrange(i, next), src.subrange(next, j));
                assert(src.subrange(i, j) =~= src.subrange(i, next) + src.subrange(next, j));
            },
            SpecStep::Emit { next, line: l, .. } => {
                lemma_line_between(src, next, l, j, line_j);
                lemma_line_after_concat(line, src.subrange(i, next), src.subrange(next, j));
                assert(src.subrange(i, j) =~= src.subrange(i, next) + src.subrange(next, j));
            },
            _ => {},
        }
    } else {
        assert(src.subrange(i, j) =~= Seq::<char>::empty());
    }
}

/// The line on which a lexeme starts is one more than the number of line
/// feeds before it (up to the largest line number).
pub proof fn lemma_line_counts_line_feeds(src: Seq<char>, j: int, line: u32)
    requires
        lexeme_starts(src, j, line),
        j <= src.len(),
    ensures
        line == line_after(1, src.take(j)),
{
    lemma_line_between(src, 0, 1, j, line);
    assert(src.take(j) =~= src.subrange(0, j));
}

/// No step gives an `Eof` token.
proof fn lemma_step_emits_no_end(src: Seq<char>, i: int, line: u32)
    ensures
        match lex_step(src, i, line) {
            SpecStep::Emit { token, .. } => token.kind != TokenKind::Eof,
            _ => true,
        },
{
}

/// The tokens of a source end with `Eof`, placed at the end of the source,
/// and hold no other `Eof`.
pub proof fn lemma_scan_ends_with_eof(src: Seq<char>, i: int, line: u32)
    ensures
        match scan_from(src, i, line) {
            Ok(tokens) => {
                &&& tokens.len() >= 1
                &&& tokens.last().kind == TokenKind::Eof
                &&& tokens.last().position == src.len() as usize
                &&& forall|k: int| 0 <= k < tokens.len() - 1 ==> (#[trigger] tokens[k]).kind
                    != TokenKind::Eof
            },
            Err(_) => true,
        },
    decreases src.len() - i,
{
    lemma_step_advances(src, i, line);
    lemma_step_emits_no_end(src, i, line);
    match lex_step(src, i, line) {
        SpecStep::Skip { next, line: l } => {
            lemma_scan_ends_with_eof(src, next, l);
        },
        SpecStep::Emit { token, next, line: l } => {
            lemma_scan_ends_with_eof(src, next, l);
            if let Ok(rest) = scan_from(src, next, l) {
                let tokens = seq![token] + rest;
                assert(tokens.last() == rest.last());
                assert forall|k: int| 0 <= k < tokens.len() - 1 implies (#[trigger] tokens[k]).kind
                    != TokenKind::Eof by {
                    if k > 0 {
                        assert(tokens[k] == rest[k - 1]);
                    }
                }
            }
        },
        _ => {},
    }
}

} // verus!
