//! The scanner that reads a whole input and ends it with the end-of-input
//! token, and the decisions of an interpreter session around it.
use vstd::prelude::*;

use crate::grammar::{
    eof_at, lemma_lexed_spans_concat, lemma_step_advances, lexed_spans, line_end, scan, scan_from,
    step, step_errors, step_spans,
};
use crate::scanner::chars_of;
use crate::Args;
use crate::token::{lexed_all, punctuation_text, spelling, Lexed, Token, TokenType};

verus! {

/// The message reported for a character outside the lexical grammar.
pub open spec fn unexpected_message() -> Seq<char> {
    "Unexpected character."@
}

/// A diagnostic: the line it concerns, where on it, and what went wrong.
#[derive(Debug, Clone)]
pub struct Diagnostic {
    pub line: usize,
    pub context: String,
    pub message: String,
}

/// Whether `d` reports an unexpected character, with no context.
pub open spec fn is_unexpected(d: Diagnostic) -> bool {
    d.context@ == Seq::<char>::empty() && d.message@ == unexpected_message()
}

/// The lines of a sequence of diagnostics, in order.
pub open spec fn lines_of(ds: Seq<Diagnostic>) -> Seq<int> {
    ds.map_values(|d: Diagnostic| d.line as int)
}

/// Whether every diagnostic of `ds` reports an unexpected character.
pub open spec fn all_unexpected(ds: Seq<Diagnostic>) -> bool {
    forall|i: int| 0 <= i < ds.len() ==> #[trigger] is_unexpected(ds[i])
}

/// Whether `new` is `old` followed by one unexpected-character report for
/// each line of `lines`, in order.
pub open spec fn reports_after(new: Seq<Diagnostic>, old: Seq<Diagnostic>, lines: Seq<int>) -> bool {
    &&& new.len() == old.len() + lines.len()
    &&& new.take(old.len() as int) == old
    &&& lines_of(new.skip(old.len() as int)) == lines
    &&& all_unexpected(new.skip(old.len() as int))
}

/// Reports made one after another add up.
pub proof fn lemma_reports_after_trans(
    a: Seq<Diagnostic>,
    b: Seq<Diagnostic>,
    c: Seq<Diagnostic>,
    l1: Seq<int>,
    l2: Seq<int>,
)
    requires
        reports_after(b, a, l1),
        reports_after(c, b, l2),
    ensures
        reports_after(c, a, l1 + l2),
{
    assert(c.take(a.len() as int) =~= b.take(a.len() as int));
    assert(c.skip(a.len() as int) =~= b.skip(a.len() as int) + c.skip(b.len() as int));
    assert(lines_of(c.skip(a.len() as int)) =~= lines_of(b.skip(a.len() as int)) + lines_of(
        c.skip(b.len() as int),
    ));
    assert forall|i: int| 0 <= i < c.skip(a.len() as int).len() implies #[trigger] is_unexpected(
        c.skip(a.len() as int)[i],
    ) by {
        if i < b.len() - a.len() {
            assert(c.skip(a.len() as int)[i] == b.skip(a.len() as int)[i]);
        } else {
            assert(c.skip(a.len() as int)[i] == c.skip(b.len() as int)[i - (b.len() - a.len())]);
        }
    }
}

/// A scanner that reads its whole input once and ends the tokens it finds
/// with the end-of-input token.
pub struct Scanner {
    source: Vec<char>,
    tokens: Vec<Token>,
    start: usize,
    current: usize,
    line: usize,
    diagnostics: Vec<Diagnostic>,
    done: bool,
}

impl Scanner {
    /// The characters of the input.
    pub closed spec fn text(&self) -> Seq<char> {
        self.source@
    }

    /// The offset of the next character to consume.
    pub closed spec fn position(&self) -> int {
        self.current as int
    }

    /// The line that the scan has reached.
    pub closed spec fn line_reached(&self) -> int {
        self.line as int
    }

    /// Whether the end-of-input token has been handed out.
    pub closed spec fn is_done(&self) -> bool {
        self.done
    }

    /// The errors reported so far.
    pub closed spec fn reports(&self) -> Seq<Diagnostic> {
        self.diagnostics@
    }

    spec fn cursor_ok(&self) -> bool {
        &&& self.start <= self.current <= self.source@.len()
        &&& 1 <= self.line
        &&& self.line + (self.source@.len() - self.current) <= usize::MAX
    }

    /// Between scans: the cursor is sound, no token waits, and a finished
    /// scanner stands at the end of its input.
    pub closed spec fn wf(&self) -> bool {
        &&& self.cursor_ok()
        &&& self.tokens@.len() == 0
        &&& self.done ==> self.current == self.source@.len()
    }

    /// A scanner at the start of `source`, on line one.
    pub fn new(source: String) -> (r: Scanner)
        requires
            source@.len() < usize::MAX,
        ensures
            r.wf(),
            r.text() == source@,
            r.position() == 0,
            r.line_reached() == 1,
            !r.is_done(),
            r.reports().len() == 0,
    {
        Scanner {
            source: chars_of(source.as_str()),
            tokens: Vec::new(),
            start: 0,
            current: 0,
            line: 1,
            diagnostics: Vec::new(),
            done: false,
        }
    }

    /// The errors reported so far, in order.
    pub fn diagnostics(&self) -> (r: &Vec<Diagnostic>)
        ensures
            r@ == self.reports(),
    {
        &self.diagnostics
    }

    /// Scans the rest of the input and hands out its tokens, ended by the
    /// end-of-input token on the last line; each unexpected character is
    /// reported and skipped. Once that is done, a further call hands out
    /// nothing.
    pub fn scan_tokens(&mut self) -> (r: Vec<Token>)
        requires
            old(self).wf(),
        ensures
            final(self).wf(),
            final(self).is_done(),
            final(self).text() == old(self).text(),
            old(self).is_done() ==> r@.len() == 0 && final(self).reports() == old(self).reports(),
            !old(self).is_done() ==> ({
                let o = scan_from(old(self).text(), old(self).position(), old(self).line_reached());
                &&& lexed_all(r@) == lexed_spans(old(self).text(), o.spans).push(eof_at(o.line))
                &&& final(self).line_reached() == o.line
                &&& reports_after(final(self).reports(), old(self).reports(), o.errors)
            }),
    {
        if self.done {
            return Vec::new();
        }
        let ghost src = self.source@;
        let ghost o0 = scan_from(src, self.current as int, self.line as int);
        let ghost d0 = self.diagnostics@;
        proof {
            assert(d0.take(d0.len() as int) =~= d0);
            assert(lines_of(d0.skip(d0.len() as int)) =~= Seq::<int>::empty());
            assert(reports_after(d0, d0, Seq::empty()));
            assert(Seq::<int>::empty() + o0.errors =~= o0.errors);
            assert(lexed_all(self.tokens@) =~= Seq::<Lexed>::empty());
        }
        while !self.at_end()
            invariant
                self.cursor_ok(),
                self.source@ == src,
                ({
                    let o = scan_from(src, self.current as int, self.line as int);
                    &&& lexed_all(self.tokens@) + lexed_spans(src, o.spans) == lexed_spans(
                        src,
                        o0.spans,
                    )
                    &&& o.line == o0.line
                    &&& exists|done: Seq<int>|
                        reports_after(self.diagnostics@, d0, done) && done + o.errors == o0.errors
                }),
            decreases src.len() - self.current,
        {
            let ghost pos = self.current as int;
            let ghost line = self.line as int;
            let ghost d1 = self.diagnostics@;
            let ghost done = choose|done: Seq<int>|
                reports_after(d1, d0, done) && done + scan_from(src, pos, line).errors == o0.errors;
            self.start = self.current;
            self.scan_token();
            proof {
                let s = step(src, pos, line);
                let rest = scan_from(src, s.next, s.line);
                lemma_step_advances(src, pos, line);
                lemma_lexed_spans_concat(src, step_spans(s), rest.spans);
                lemma_reports_after_trans(d0, d1, self.diagnostics@, done, step_errors(s));
                assert(done + step_errors(s) + rest.errors == o0.errors);
            }
        }
        proof {
            let o = scan_from(src, self.current as int, self.line as int);
            assert(lexed_spans(src, o.spans) =~= Seq::<Lexed>::empty());
            assert(lexed_all(self.tokens@) =~= lexed_spans(src, o0.spans));
            let done = choose|done: Seq<int>|
                reports_after(self.diagnostics@, d0, done) && done + o.errors == o0.errors;
            assert(done =~= o0.errors);
            reveal_strlit("");
            assert(""@ =~= Seq::<char>::empty());
        }
        let eof = Token::new(TokenType::Eof, "", self.line);
        let ghost before = self.tokens@;
        self.tokens.push(eof);
        self.done = true;
        let mut out: Vec<Token> = Vec::new();
        std::mem::swap(&mut out, &mut self.tokens);
        proof {
            assert(eof@ == eof_at(o0.line));
            assert(lexed_all(out@) =~= lexed_all(before).push(eof@));
        }
        out
    }

    /// One step of the lexical grammar from the cursor.
    fn scan_token(&mut self)
        requires
            old(self).cursor_ok(),
            old(self).start == old(self).current,
            old(self).current < old(self).source@.len(),
        ensures
            final(self).cursor_ok(),
            final(self).source@ == old(self).source@,
            final(self).done == old(self).done,
            ({
                let s = step(old(self).source@, old(self).current as int, old(self).line as int);
                &&& final(self).current == s.next
                &&& final(self).line == s.line
                &&& lexed_all(final(self).tokens@) == lexed_all(old(self).tokens@) + lexed_spans(
                    old(self).source@,
                    step_spans(s),
                )
                &&& reports_after(final(self).diagnostics@, old(self).diagnostics@, step_errors(s))
            }),
    {
        let ghost src = self.source@;
        let ghost pos = self.current as int;
        let ghost s = step(src, pos, self.line as int);
        let ghost t0 = lexed_all(self.tokens@);
        let c: char = self.advance();
        proof {
            assert(src.subrange(pos, pos + 1) =~= seq![c]);
            assert(seq![c] + seq!['='] =~= seq![c, '=']);
        }
        match c {
            '(' => self.add_token(TokenType::LeftParen),
            ')' => self.add_token(TokenType::RightParen),
            '{' => self.add_token(TokenType::LeftBrace),
            '}' => self.add_token(TokenType::RightBrace),
            ',' => self.add_token(TokenType::Comma),
            '.' => self.add_token(TokenType::Dot),
            '-' => self.add_token(TokenType::Minus),
            '+' => self.add_token(TokenType::Plus),
            ';' => self.add_token(TokenType::Semicolon),
            '*' => self.add_token(TokenType::Star),
            '/' => {
                if self.next_char('/') {
                    while !self.at_end() && self.source[self.current] != '\n'
                        invariant
                            self.source@ == src,
                            self.start == pos,
                            pos + 2 <= self.current <= src.len(),
                            line_end(src, self.current as int) == line_end(src, pos + 2),
                            self.line == old(self).line,
                            self.tokens == old(self).tokens,
                            self.diagnostics == old(self).diagnostics,
                            self.done == old(self).done,
                        decreases src.len() - self.current,
                    {
                        self.advance();
                    }
                } else {
                    self.add_token(TokenType::Slash);
                }
            },
            '!' => self.match_token('=', TokenType::BangEqual, TokenType::Bang),
            '=' => self.match_token('=', TokenType::EqualEqual, TokenType::Equal),
            '>' => self.match_token('=', TokenType::GreaterEqual, TokenType::Greater),
            '<' => self.match_token('=', TokenType::LessEqual, TokenType::Less),
            ' ' | '\r' | '\t' => {},
            '\n' => self.line = self.line + 1,
            _ => {
                let d = Lox::error(self.line, "Unexpected character.");
                self.diagnostics.push(d);
            },
        }
        proof {
            assert(lexed_all(self.tokens@) =~= t0 + lexed_spans(src, step_spans(s)));
            let n = old(self).diagnostics@.len() as int;
            assert(self.diagnostics@.take(n) =~= old(self).diagnostics@);
            assert(lines_of(self.diagnostics@.skip(n)) =~= step_errors(s));
        }
    }

    /// Emits `matched` if the next character is `expected`, consuming it,
    /// and `unmatched` otherwise.
    fn match_token(&mut self, expected: char, matched: TokenType, unmatched: TokenType)
        requires
            old(self).start < old(self).current <= old(self).source@.len(),
            old(self).source@.subrange(old(self).start as int, old(self).current as int) + seq![
                expected,
            ] == spelling(matched),
            old(self).source@.subrange(old(self).start as int, old(self).current as int)
                == spelling(unmatched),
        ensures
            ({
                let hit = old(self).current < old(self).source@.len()
                    && old(self).source@[old(self).current as int] == expected;
                &&& final(self).current == if hit {
                    old(self).current + 1
                } else {
                    old(self).current as int
                }
                &&& lexed_all(final(self).tokens@) == lexed_all(old(self).tokens@).push(
                    Lexed {
                        kind: if hit {
                            matched
                        } else {
                            unmatched
                        },
                        text: old(self).source@.subrange(
                            old(self).start as int,
                            final(self).current as int,
                        ),
                        line: old(self).line as int,
                    },
                )
            }),
            final(self).source@ == old(self).source@,
            final(self).start == old(self).start,
            final(self).line == old(self).line,
            final(self).diagnostics == old(self).diagnostics,
            final(self).done == old(self).done,
    {
        let is_match = self.next_char(expected);
        proof {
            if is_match {
                assert(self.source@.subrange(self.start as int, self.current as int)
                    =~= old(self).source@.subrange(old(self).start as int, old(self).current as int)
                    + seq![expected]);
            }
        }
        self.add_token(if is_match { matched } else { unmatched });
    }

    /// Consumes the next character if it is `expected`, and says whether it did.
    fn next_char(&mut self, expected: char) -> (r: bool)
        requires
            old(self).current <= old(self).source@.len(),
        ensures
            r == (old(self).current < old(self).source@.len()
                && old(self).source@[old(self).current as int] == expected),
            final(self).current == if r {
                old(self).current + 1
            } else {
                old(self).current as int
            },
            final(self).source@ == old(self).source@,
            final(self).start == old(self).start,
            final(self).line == old(self).line,
            final(self).tokens == old(self).tokens,
            final(self).diagnostics == old(self).diagnostics,
            final(self).done == old(self).done,
    {
        if self.at_end() {
            return false;
        }
        if self.source[self.current] != expected {
            return false;
        }
        proof {
            assert(self.source@.len() == self.source.len());
        }
        self.current = self.current + 1;
        true
    }

    /// Consumes the next character and returns it.
    fn advance(&mut self) -> (c: char)
        requires
            old(self).current < old(self).source@.len(),
        ensures
            c == old(self).source@[old(self).current as int],
            final(self).current == old(self).current + 1,
            final(self).source@ == old(self).source@,
            final(self).start == old(self).start,
            final(self).line == old(self).line,
            final(self).tokens == old(self).tokens,
            final(self).diagnostics == old(self).diagnostics,
            final(self).done == old(self).done,
    {
        let c: char = self.source[self.current];
        proof {
            assert(self.source@.len() == self.source.len());
        }
        self.current = self.current + 1;
        c
    }

    /// Appends a token of kind `token_type` on the current line, whose text
    /// runs from the token's start to the cursor.
    fn add_token(&mut self, token_type: TokenType)
        requires
            old(self).start <= old(self).current <= old(self).source@.len(),
            old(self).source@.subrange(old(self).start as int, old(self).current as int)
                == spelling(token_type),
        ensures
            lexed_all(final(self).tokens@) == lexed_all(old(self).tokens@).push(
                Lexed {
                    kind: token_type,
                    text: old(self).source@.subrange(
                        old(self).start as int,
                        old(self).current as int,
                    ),
                    line: old(self).line as int,
                },
            ),
            final(self).source@ == old(self).source@,
            final(self).start == old(self).start,
            final(self).current == old(self).current,
            final(self).line == old(self).line,
            final(self).diagnostics == old(self).diagnostics,
            final(self).done == old(self).done,
    {
        let t = Token::new(token_type, punctuation_text(token_type), self.line);
        self.tokens.push(t);
        proof {
            assert(lexed_all(self.tokens@) =~= lexed_all(old(self).tokens@).push(t@));
        }
    }

    /// Whether no character is left to consume.
    fn at_end(&self) -> (r: bool)
        ensures
            r == (self.current >= self.source@.len()),
    {
        self.current >= self.source.len()
    }
}

/// The exit status of a script run that reported a lexical error.
pub const DATA_ERROR_STATUS: i32 = 65;

/// What a session does with its arguments: run a script file, or read
/// lines interactively.
pub enum Mode {
    RunFile(String),
    Prompt,
}

/// An interpreter session: it remembers whether the current unit of input
/// had a lexical error.
pub struct Lox {
    pub had_error: bool,
}

impl Lox {
    /// A session with no error yet.
    pub fn new() -> (r: Lox)
        ensures
            !r.had_error,
    {
        Lox { had_error: false }
    }

    /// The diagnostic for an error on `line`, with an empty context.
    pub fn error(line: usize, message: &str) -> (d: Diagnostic)
        ensures
            d.line == line,
            d.context@ == Seq::<char>::empty(),
            d.message@ == message@,
    {
        Diagnostic { line, context: String::new(), message: message.to_owned() }
    }

    /// Chooses the mode from the arguments: a script path means running that
    /// file, its absence means the interactive prompt.
    pub fn exec(&mut self, args: &Args) -> (r: Mode)
        ensures
            *final(self) == *old(self),
            match args.script {
                Some(path) => r == Mode::RunFile(path),
                None => r == Mode::Prompt,
            },
    {
        match &args.script {
            Some(path) => Mode::RunFile(path.clone()),
            None => Mode::Prompt,
        }
    }

    /// Scans one unit of input: hands out its tokens, ended by the
    /// end-of-input token, and its diagnostics, and records whether any
    /// error occurred.
    pub fn run(&mut self, source: &str) -> (r: (Vec<Token>, Vec<Diagnostic>))
        requires
            source@.len() < usize::MAX,
        ensures
            ({
                let o = scan(source@);
                &&& lexed_all(r.0@) == lexed_spans(source@, o.spans).push(eof_at(o.line))
                &&& reports_after(r.1@, Seq::empty(), o.errors)
                &&& final(self).had_error == (old(self).had_error || o.errors.len() > 0)
            }),
    {
        let mut scanner = Scanner::new(source.to_owned());
        proof {
            assert(scanner.diagnostics@ =~= Seq::<Diagnostic>::empty());
        }
        let tokens = scanner.scan_tokens();
        let diagnostics = scanner.diagnostics;
        self.had_error = self.had_error || diagnostics.len() > 0;
        proof {
            assert(diagnostics@.len() == scan(source@).errors.len());
        }
        (tokens, diagnostics)
    }

    /// The status a script run ends with: none after a clean run, the
    /// data-error status after a lexical error.
    pub fn failure_status(&self) -> (r: Option<i32>)
        ensures
            r == if self.had_error {
                Some(DATA_ERROR_STATUS)
            } else {
                None::<i32>
            },
    {
        if self.had_error {
            Some(DATA_ERROR_STATUS)
        } else {
            None
        }
    }

    /// Forgets the errors of the last unit of input, so that one bad line
    /// at the prompt does not spoil the next.
    pub fn reset_error(&mut self)
        ensures
            !final(self).had_error,
    {
        self.had_error = false;
    }
}

} // verus!
