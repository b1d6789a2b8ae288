//! A scanner over a cursor: its position, line and token list are open to
//! the caller, and it can be driven one character at a time.
use vstd::prelude::*;

use crate::grammar::{
    lemma_lexed_spans_concat, lemma_step_advances, lexed_spans, line_end, scan_from, step,
    step_errors, step_spans,
};
use crate::lox::{lemma_reports_after_trans, lines_of, reports_after, Diagnostic, Lox};
use crate::token::{lemma_punctuation_text, lexed_all, Lexed, Token, TokenType};

verus! {

/// The characters of `s`, in order.
pub(crate) fn chars_of(s: &str) -> (r: Vec<char>)
    ensures
        r@ == s@,
{
    let mut r: Vec<char> = Vec::new();
    for c in it: s.chars()
        invariant
            r@ == it.seq().take(it.index() as int),
    {
        r.push(c);
    }
    proof {
        assert(r@ =~= s@);
    }
    r
}

/// A scanner over one source text.
pub struct Scanner {
    pub source: Vec<char>,
    pub start: usize,
    pub current: usize,
    pub line: usize,
    pub tokens: Vec<Token>,
    pub diagnostics: Vec<Diagnostic>,
}

impl Scanner {
    /// The cursor lies inside the source, behind the start of the token
    /// being built, and the line counter can count every line still ahead.
    pub open spec fn wf(&self) -> bool {
        &&& self.start <= self.current <= self.source@.len()
        &&& 1 <= self.line
        &&& self.line + (self.source@.len() - self.current) <= usize::MAX
    }

    /// Whether `self` and `other` differ at most in their cursor.
    pub open spec fn same_but_cursor(&self, other: &Scanner) -> bool {
        &&& self.source@ == other.source@
        &&& self.start == other.start
        &&& self.line == other.line
        &&& self.tokens == other.tokens
        &&& self.diagnostics == other.diagnostics
    }

    /// A scanner at the start of `source`, on line one, with nothing scanned.
    pub fn new(source: String) -> (r: Scanner)
        requires
            source@.len() < usize::MAX,
        ensures
            r.wf(),
            r.source@ == source@,
            r.start == 0,
            r.current == 0,
            r.line == 1,
            r.tokens@.len() == 0,
            r.diagnostics@.len() == 0,
    {
        Scanner {
            source: chars_of(source.as_str()),
            start: 0,
            current: 0,
            line: 1,
            tokens: Vec::new(),
            diagnostics: Vec::new(),
        }
    }

    /// Scans from the cursor to the end of the source: appends the tokens
    /// found, in order, and one report for each unexpected character, and
    /// leaves the line counter on the last line.
    pub fn scan_tokens(&mut self)
        requires
            old(self).wf(),
        ensures
            final(self).wf(),
            final(self).source@ == old(self).source@,
            final(self).current == old(self).source@.len(),
            ({
                let o = scan_from(old(self).source@, old(self).current as int, old(self).line as int);
                &&& lexed_all(final(self).tokens@) == lexed_all(old(self).tokens@) + lexed_spans(
                    old(self).source@,
                    o.spans,
                )
                &&& final(self).line == o.line
                &&& reports_after(final(self).diagnostics@, old(self).diagnostics@, o.errors)
            }),
    {
        let ghost src = self.source@;
        let ghost o0 = scan_from(src, self.current as int, self.line as int);
        let ghost t0 = lexed_all(self.tokens@);
        let ghost d0 = self.diagnostics@;
        proof {
            assert(d0.take(d0.len() as int) =~= d0);
            assert(lines_of(d0.skip(d0.len() as int)) =~= Seq::<int>::empty());
            assert(reports_after(d0, d0, Seq::empty()));
            assert(Seq::<int>::empty() + o0.errors =~= o0.errors);
        }
        while !self.is_at_end()
            invariant
                self.wf(),
                self.source@ == src,
                ({
                    let o = scan_from(src, self.current as int, self.line as int);
                    &&& lexed_all(self.tokens@) + lexed_spans(src, o.spans) == t0 + lexed_spans(
                        src,
                        o0.spans,
                    )
                    &&& o.line == o0.line
                    &&& exists|done: Seq<int>|
                        reports_after(self.diagnostics@, d0, done) && done + o.errors == o0.errors
                }),
            decreases src.len() - self.current,
        {
            let ghost pos = self.current as int;
            let ghost line = self.line as int;
            let ghost d1 = self.diagnostics@;
            let ghost done = choose|done: Seq<int>|
                reports_after(d1, d0, done) && done + scan_from(src, pos, line).errors == o0.errors;
            self.start = self.current;
            self.scan_token();
            proof {
                let s = step(src, pos, line);
                let rest = scan_from(src, s.next, s.line);
                lemma_step_advances(src, pos, line);
                lemma_lexed_spans_concat(src, step_spans(s), rest.spans);
                lemma_reports_after_trans(d0, d1, self.diagnostics@, done, step_errors(s));
                assert(done + step_errors(s) + rest.errors == o0.errors);
            }
        }
        proof {
            let o = scan_from(src, self.current as int, self.line as int);
            assert(lexed_spans(src, o.spans) =~= Seq::<crate::token::Lexed>::empty());
            assert(lexed_all(self.tokens@) =~= t0 + lexed_spans(src, o0.spans));
            let done = choose|done: Seq<int>|
                reports_after(self.diagnostics@, d0, done) && done + o.errors == o0.errors;
            assert(done =~= o0.errors);
        }
    }

    /// Whether no character is left to consume.
    pub fn is_at_end(&self) -> (r: bool)
        ensures
            r == (self.current >= self.source@.len()),
    {
        self.current >= self.source.len()
    }

    /// Consumes the next character and returns it.
    pub fn advance(&mut self) -> (c: char)
        requires
            old(self).current < old(self).source@.len(),
        ensures
            c == old(self).source@[old(self).current as int],
            final(self).current == old(self).current + 1,
            final(self).same_but_cursor(old(self)),
    {
        let c = self.source[self.current];
        proof {
            assert(self.source@.len() == self.source.len());
        }
        self.current = self.current + 1;
        c
    }

    /// Consumes the next character if it is `expected`, and says whether it did.
    pub fn match_(&mut self, expected: char) -> (r: bool)
        ensures
            r == (old(self).current < old(self).source@.len()
                && old(self).source@[old(self).current as int] == expected),
            final(self).current == if r {
                old(self).current + 1
            } else {
                old(self).current as int
            },
            final(self).same_but_cursor(old(self)),
    {
        if self.is_at_end() {
            return false;
        }
        if self.source[self.current] != expected {
            return false;
        }
        proof {
            assert(self.source@.len() == self.source.len());
        }
        self.current = self.current + 1;
        true
    }

    /// The next character, not consumed.
    pub fn peek(&self) -> (c: char)
        requires
            self.current < self.source@.len(),
        ensures
            c == self.source@[self.current as int],
    {
        self.source[self.current]
    }

    /// The character after the next one, if there is one.
    pub fn peek_next(&self) -> (r: Option<char>)
        ensures
            r == if self.current + 1 < self.source@.len() {
                Some(self.source@[self.current + 1])
            } else {
                None::<char>
            },
    {
        if self.current < self.source.len() && self.current + 1 < self.source.len() {
            Some(self.source[self.current + 1])
        } else {
            None
        }
    }

    /// Appends a token of kind `token_type` on the current line, whose text
    /// `lexeme` is the source text from the token's start to the cursor.
    fn add_token(&mut self, token_type: TokenType, lexeme: &str)
        requires
            old(self).start <= old(self).current <= old(self).source@.len(),
            lexeme@ == old(self).source@.subrange(old(self).start as int, old(self).current as int),
        ensures
            lexed_all(final(self).tokens@) == lexed_all(old(self).tokens@).push(
                Lexed { kind: token_type, text: lexeme@, line: old(self).line as int },
            ),
            final(self).source@ == old(self).source@,
            final(self).start == old(self).start,
            final(self).current == old(self).current,
            final(self).line == old(self).line,
            final(self).diagnostics == old(self).diagnostics,
    {
        let t = Token::new(token_type, lexeme, self.line);
        self.tokens.push(t);
        proof {
            assert(lexed_all(self.tokens@) =~= lexed_all(old(self).tokens@).push(t@));
        }
    }

    /// Scans one token, or skips one blank, newline, comment or unexpected
    /// character, from the cursor: one step of the lexical grammar.
    fn scan_token(&mut self)
        requires
            old(self).wf(),
            old(self).start == old(self).current,
            old(self).current < old(self).source@.len(),
        ensures
            final(self).wf(),
            final(self).source@ == old(self).source@,
            ({
                let s = step(old(self).source@, old(self).current as int, old(self).line as int);
                &&& final(self).current == s.next
                &&& final(self).line == s.line
                &&& lexed_all(final(self).tokens@) == lexed_all(old(self).tokens@) + lexed_spans(
                    old(self).source@,
                    step_spans(s),
                )
                &&& reports_after(final(self).diagnostics@, old(self).diagnostics@, step_errors(s))
            }),
    {
        let ghost src = self.source@;
        let ghost pos = self.current as int;
        let ghost s = step(src, pos, self.line as int);
        let ghost t0 = lexed_all(self.tokens@);
        let c = self.advance();
        proof {
            lemma_punctuation_text();
            assert(src.subrange(pos, pos + 1) =~= seq![c]);
            if pos + 2 <= src.len() {
                assert(src.subrange(pos, pos + 2) =~= seq![c, src[pos + 1]]);
            }
        }
        match c {
            '(' => self.add_token(TokenType::LeftParen, "("),
            ')' => self.add_token(TokenType::RightParen, ")"),
            '{' => self.add_token(TokenType::LeftBrace, "{"),
            '}' => self.add_token(TokenType::RightBrace, "}"),
            ',' => self.add_token(TokenType::Comma, ","),
            '.' => self.add_token(TokenType::Dot, "."),
            '-' => self.add_token(TokenType::Minus, "-"),
            '+' => self.add_token(TokenType::Plus, "+"),
            ';' => self.add_token(TokenType::Semicolon, ";"),
            '*' => self.add_token(TokenType::Star, "*"),
            '!' => {
                let token_type = if self.match_('=') {
                    (TokenType::BangEqual, "!=")
                } else {
                    (TokenType::Bang, "!")
                };
                self.add_token(token_type.0, token_type.1)
            },
            '=' => {
                let token_type = if self.match_('=') {
                    (TokenType::EqualEqual, "==")
                } else {
                    (TokenType::Equal, "=")
                };
                self.add_token(token_type.0, token_type.1)
            },
            '<' => {
                let token_type = if self.match_('=') {
                    (TokenType::LessEqual, "<=")
                } else {
                    (TokenType::Less, "<")
                };
                self.add_token(token_type.0, token_type.1)
            },
            '>' => {
                let token_type = if self.match_('=') {
                    (TokenType::GreaterEqual, ">=")
                } else {
                    (TokenType::Greater, ">")
                };
                self.add_token(token_type.0, token_type.1)
            },
            '/' => {
                if self.match_('/') {
                    while !self.is_at_end() && self.peek() != '\n'
                        invariant
                            self.source@ == src,
                            self.start == pos,
                            pos + 2 <= self.current <= src.len(),
                            line_end(src, self.current as int) == line_end(src, pos + 2),
                            self.line == old(self).line,
                            self.tokens == old(self).tokens,
                            self.diagnostics == old(self).diagnostics,
                        decreases src.len() - self.current,
                    {
                        self.advance();
                    }
                } else {
                    self.add_token(TokenType::Slash, "/");
                }
            },
            ' ' | '\r' | '\t' => {},
            '\n' => self.line = self.line + 1,
            _ => {
                let d = Lox::error(self.line, "Unexpected character.");
                self.diagnostics.push(d);
            },
        }
        proof {
            assert(lexed_all(self.tokens@) =~= t0 + lexed_spans(src, step_spans(s)));
            let n = old(self).diagnostics@.len() as int;
            assert(self.diagnostics@.take(n) =~= old(self).diagnostics@);
            assert(lines_of(self.diagnostics@.skip(n)) =~= step_errors(s));
        }
    }
}

} // verus!
