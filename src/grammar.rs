//! The lexical grammar as mathematics: what one step of a scan does at a
//! position, and what a whole scan produces.
use vstd::prelude::*;

use crate::token::{Lexed, TokenType};

verus! {

/// The kind of a character that always forms a token on its own.
pub open spec fn single_kind(c: char) -> Option<TokenType> {
    if c == '(' {
        Some(TokenType::LeftParen)
    } else if c == ')' {
        Some(TokenType::RightParen)
    } else if c == '{' {
        Some(TokenType::LeftBrace)
    } else if c == '}' {
        Some(TokenType::RightBrace)
    } else if c == ',' {
        Some(TokenType::Comma)
    } else if c == '.' {
        Some(TokenType::Dot)
    } else if c == '-' {
        Some(TokenType::Minus)
    } else if c == '+' {
        Some(TokenType::Plus)
    } else if c == ';' {
        Some(TokenType::Semicolon)
    } else if c == '*' {
        Some(TokenType::Star)
    } else {
        None
    }
}

/// For `!`, `=`, `<` and `>`: the kind when no `=` follows.
pub open spec fn alone_kind(c: char) -> Option<TokenType> {
    if c == '!' {
        Some(TokenType::Bang)
    } else if c == '=' {
        Some(TokenType::Equal)
    } else if c == '<' {
        Some(TokenType::Less)
    } else if c == '>' {
        Some(TokenType::Greater)
    } else {
        None
    }
}

/// For `!`, `=`, `<` and `>`: the kind when `=` follows.
pub open spec fn with_equal_kind(c: char) -> Option<TokenType> {
    if c == '!' {
        Some(TokenType::BangEqual)
    } else if c == '=' {
        Some(TokenType::EqualEqual)
    } else if c == '<' {
        Some(TokenType::LessEqual)
    } else if c == '>' {
        Some(TokenType::GreaterEqual)
    } else {
        None
    }
}

/// Characters skipped without effect.
pub open spec fn is_blank(c: char) -> bool {
    c == ' ' || c == '\r' || c == '\t'
}

/// Whether the character at `pos` exists and is `c`.
pub open spec fn char_at_is(src: Seq<char>, pos: int, c: char) -> bool {
    0 <= pos < src.len() && src[pos] == c
}

/// The first position at or after `pos` that holds a newline, or the end.
pub open spec fn line_end(src: Seq<char>, pos: int) -> int
    decreases src.len() - pos,
{
    if pos < 0 || pos >= src.len() || src[pos] == '\n' {
        pos
    } else {
        line_end(src, pos + 1)
    }
}

/// A token's place in the source: its kind, the offsets `start..end` of its
/// text and the line on which it starts.
pub struct Span {
    pub kind: TokenType,
    pub start: int,
    pub end: int,
    pub line: int,
}

/// What one step does: the token it emits, if any, whether it reports an
/// unexpected character, and the position and line it leaves behind.
pub struct Step {
    pub span: Option<Span>,
    pub error: bool,
    pub next: int,
    pub line: int,
}

/// The step taken at `pos` on line `line`, for `pos` inside the source.
pub open spec fn step(src: Seq<char>, pos: int, line: int) -> Step {
    let c = src[pos];
    if single_kind(c) is Some {
        Step {
            span: Some(Span { kind: single_kind(c)->0, start: pos, end: pos + 1, line }),
            error: false,
            next: pos + 1,
            line,
        }
    } else if alone_kind(c) is Some {
        if char_at_is(src, pos + 1, '=') {
            Step {
                span: Some(Span { kind: with_equal_kind(c)->0, start: pos, end: pos + 2, line }),
                error: false,
                next: pos + 2,
                line,
            }
        } else {
            Step {
                span: Some(Span { kind: alone_kind(c)->0, start: pos, end: pos + 1, line }),
                error: false,
                next: pos + 1,
                line,
            }
        }
    } else if c == '/' {
        if char_at_is(src, pos + 1, '/') {
            Step { span: None, error: false, next: line_end(src, pos + 2), line }
        } else {
            Step {
                span: Some(Span { kind: TokenType::Slash, start: pos, end: pos + 1, line }),
                error: false,
                next: pos + 1,
                line,
            }
        }
    } else if is_blank(c) {
        Step { span: None, error: false, next: pos + 1, line }
    } else if c == '\n' {
        Step { span: None, error: false, next: pos + 1, line: line + 1 }
    } else {
        Step { span: None, error: true, next: pos + 1, line }
    }
}

/// The token places that a step emits: none or one.
pub open spec fn step_spans(s: Step) -> Seq<Span> {
    match s.span {
        Some(sp) => seq![sp],
        None => Seq::empty(),
    }
}

/// The lines of the errors that a step reports: none or one.
pub open spec fn step_errors(s: Step) -> Seq<int> {
    if s.error {
        seq![s.line]
    } else {
        Seq::empty()
    }
}

/// What a scan from a position produces: the token places in order, the
/// lines of the unexpected characters in order, and the line reached at the end.
pub struct Outcome {
    pub spans: Seq<Span>,
    pub errors: Seq<int>,
    pub line: int,
}

/// The scan of `src` from `pos` on line `line` to the end of the input.
pub open spec fn scan_from(src: Seq<char>, pos: int, line: int) -> Outcome
    decreases src.len() - pos,
    via scan_from_decreases
{
    if pos < 0 || pos >= src.len() {
        Outcome { spans: Seq::empty(), errors: Seq::empty(), line }
    } else {
        let s = step(src, pos, line);
        let rest = scan_from(src, s.next, s.line);
        Outcome {
            spans: step_spans(s) + rest.spans,
            errors: step_errors(s) + rest.errors,
            line: rest.line,
        }
    }
}

proof fn lemma_line_end_bounds(src: Seq<char>, pos: int)
    requires
        0 <= pos,
    ensures
        pos <= line_end(src, pos),
        pos <= src.len() ==> line_end(src, pos) <= src.len(),
    decreases src.len() - pos,
{
    if pos < src.len() && src[pos] != '\n' {
        lemma_line_end_bounds(src, pos + 1);
    }
}

/// Every step moves forward and stays inside the source.
pub proof fn lemma_step_advances(src: Seq<char>, pos: int, line: int)
    requires
        0 <= pos < src.len(),
    ensures
        pos < step(src, pos, line).next <= src.len(),
        step(src, pos, line).line == line || step(src, pos, line).line == line + 1,
{
    if pos + 2 <= src.len() {
        lemma_line_end_bounds(src, pos + 2);
    }
}

#[via_fn]
proof fn scan_from_decreases(src: Seq<char>, pos: int, line: int) {
    if 0 <= pos < src.len() {
        lemma_step_advances(src, pos, line);
    }
}

/// The whole scan of a source text, from its start on line one.
pub open spec fn scan(src: Seq<char>) -> Outcome {
    scan_from(src, 0, 1)
}

/// The token model of a token place in `src`.
pub open spec fn lexed_span(src: Seq<char>, sp: Span) -> Lexed {
    Lexed { kind: sp.kind, text: src.subrange(sp.start, sp.end), line: sp.line }
}

/// The token models of token places in `src`, in order.
pub open spec fn lexed_spans(src: Seq<char>, spans: Seq<Span>) -> Seq<Lexed> {
    spans.map_values(|sp: Span| lexed_span(src, sp))
}

/// The end-of-input token on a line.
pub open spec fn eof_at(line: int) -> Lexed {
    Lexed { kind: TokenType::Eof, text: Seq::empty(), line }
}

/// Mapping token places to token models distributes over concatenation.
pub proof fn lemma_lexed_spans_concat(src: Seq<char>, a: Seq<Span>, b: Seq<Span>)
    ensures
        lexed_spans(src, a + b) == lexed_spans(src, a) + lexed_spans(src, b),
{
    assert(lexed_spans(src, a + b) =~= lexed_spans(src, a) + lexed_spans(src, b));
}

} // verus!
