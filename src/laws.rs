//! Properties of the lexical grammar that hold of every input, stated over
//! the scan that the scanners' contracts speak of.
use vstd::prelude::*;

use crate::grammar::{
    alone_kind, char_at_is, eof_at, is_blank, lemma_step_advances, lexed_span, lexed_spans,
    line_end, scan, scan_from, single_kind, step, step_errors, step_spans, with_equal_kind,
    Outcome, Span,
};
use crate::token::{spelling, TokenType};

verus! {

/// The number of newlines among the characters `a..b` of `src`.
pub open spec fn newlines_between(src: Seq<char>, a: int, b: int) -> int
    decreases b - a,
{
    if a >= b {
        0
    } else {
        (if src[a] == '\n' {
            1int
        } else {
            0int
        }) + newlines_between(src, a + 1, b)
    }
}

proof fn lemma_newlines_split(src: Seq<char>, a: int, b: int, c: int)
    requires
        a <= b <= c,
    ensures
        newlines_between(src, a, c) == newlines_between(src, a, b) + newlines_between(src, b, c),
    decreases b - a,
{
    if a < b {
        lemma_newlines_split(src, a + 1, b, c);
    }
}

proof fn lemma_line_end_no_newline(src: Seq<char>, p: int)
    requires
        0 <= p <= src.len(),
    ensures
        p <= line_end(src, p) <= src.len(),
        newlines_between(src, p, line_end(src, p)) == 0,
        line_end(src, p) < src.len() ==> src[line_end(src, p)] == '\n',
    decreases src.len() - p,
{
    if p < src.len() && src[p] != '\n' {
        lemma_line_end_no_newline(src, p + 1);
    }
}

/// What every step does: it moves forward, counts the newlines it passes,
/// and emits at most a token that starts where it starts, ends no later than
/// it stops, and whose text is the fixed text of its kind.
proof fn lemma_step_facts(src: Seq<char>, pos: int, line: int)
    requires
        0 <= pos < src.len(),
    ensures
        ({
            let s = step(src, pos, line);
            &&& pos < s.next <= src.len()
            &&& s.line == line + newlines_between(src, pos, s.next)
            &&& s.error ==> s.line == line
            &&& s.span matches Some(sp) ==> {
                &&& sp.start == pos
                &&& sp.end <= s.next
                &&& sp.line == line
                &&& sp.kind != TokenType::Eof
                &&& src.subrange(sp.start, sp.end) == spelling(sp.kind)
            }
        }),
{
    let s = step(src, pos, line);
    let c = src[pos];
    lemma_step_advances(src, pos, line);
    assert(src.subrange(pos, pos + 1) =~= seq![c]);
    assert(newlines_between(src, pos + 1, pos + 1) == 0);
    assert(newlines_between(src, pos, pos + 1) == if c == '\n' { 1int } else { 0int });
    if pos + 2 <= src.len() {
        assert(src.subrange(pos, pos + 2) =~= seq![c, src[pos + 1]]);
        assert(newlines_between(src, pos + 2, pos + 2) == 0);
        assert(newlines_between(src, pos + 1, pos + 2) == if src[pos + 1] == '\n' {
            1int
        } else {
            0int
        });
        if c == '/' && src[pos + 1] == '/' {
            lemma_line_end_no_newline(src, pos + 2);
            lemma_newlines_split(src, pos, pos + 2, s.next);
        }
    }
}

/// Where the tokens of a scan lie: inside the scanned part of the source,
/// in order and without overlap, each spelled by its own source text, none
/// of them an end-of-input token, each on the line that the newlines before
/// it give; and the scan ends on the line that all the newlines give.
pub proof fn lemma_scan_from_shape(src: Seq<char>, pos: int, line: int)
    requires
        0 <= pos <= src.len(),
    ensures
        ({
            let o = scan_from(src, pos, line);
            &&& o.line == line + newlines_between(src, pos, src.len() as int)
            &&& forall|i: int|
                0 <= i < o.spans.len() ==> {
                    let sp = #[trigger] o.spans[i];
                    &&& pos <= sp.start < sp.end <= src.len()
                    &&& sp.kind != TokenType::Eof
                    &&& src.subrange(sp.start, sp.end) == spelling(sp.kind)
                    &&& sp.line == line + newlines_between(src, pos, sp.start)
                }
            &&& forall|i: int, j: int|
                0 <= i < j < o.spans.len() ==> #[trigger] o.spans[i].end <= #[trigger] o.spans[j].start
        }),
    decreases src.len() - pos,
{
    if pos < src.len() {
        let s = step(src, pos, line);
        let rest = scan_from(src, s.next, s.line);
        let o = scan_from(src, pos, line);
        lemma_step_facts(src, pos, line);
        lemma_scan_from_shape(src, s.next, s.line);
        lemma_newlines_split(src, pos, s.next, src.len() as int);
        let k = step_spans(s).len() as int;
        assert(o.spans == step_spans(s) + rest.spans);
        assert forall|i: int| k <= i < o.spans.len() implies o.spans[i] == rest.spans[i - k] by {}
        assert forall|i: int| 0 <= i < o.spans.len() implies {
            let sp = #[trigger] o.spans[i];
            &&& pos <= sp.start < sp.end <= src.len()
            &&& sp.kind != TokenType::Eof
            &&& src.subrange(sp.start, sp.end) == spelling(sp.kind)
            &&& sp.line == line + newlines_between(src, pos, sp.start)
        } by {
            if i >= k {
                let sp = rest.spans[i - k];
                assert(s.next <= sp.start);
                lemma_newlines_split(src, pos, s.next, sp.start);
            } else {
                assert(newlines_between(src, pos, pos) == 0);
            }
        }
        assert forall|i: int, j: int|
            0 <= i < j < o.spans.len() implies #[trigger] o.spans[i].end
            <= #[trigger] o.spans[j].start by {
            if i >= k {
                assert(rest.spans[i - k].end <= rest.spans[j - k].start);
            } else {
                assert(s.next <= rest.spans[j - k].start);
            }
        }
    } else {
        assert(newlines_between(src, pos, src.len() as int) == 0);
    }
}

/// The kind of one of the eleven symbols that stand alone as tokens.
pub open spec fn symbol_kind(c: char) -> Option<TokenType> {
    if c == '/' {
        Some(TokenType::Slash)
    } else {
        single_kind(c)
    }
}

/// Whether `src` holds only symbols that stand alone, with no `/` right
/// after another `/` (two of them open a comment).
pub open spec fn symbols_only(src: Seq<char>) -> bool {
    &&& forall|i: int| 0 <= i < src.len() ==> #[trigger] symbol_kind(src[i]) is Some
    &&& forall|i: int| 0 <= i < src.len() - 1 ==> !(#[trigger] src[i] == '/' && src[i + 1] == '/')
}

proof fn lemma_symbols_from(src: Seq<char>, pos: int, line: int)
    requires
        0 <= pos <= src.len(),
        symbols_only(src),
    ensures
        ({
            let o = scan_from(src, pos, line);
            &&& o.spans.len() == src.len() - pos
            &&& forall|i: int|
                0 <= i < o.spans.len() ==> (#[trigger] o.spans[i]).kind == symbol_kind(
                    src[pos + i],
                )->0
            &&& o.errors.len() == 0
        }),
    decreases src.len() - pos,
{
    if pos < src.len() {
        let o = scan_from(src, pos, line);
        let c = src[pos];
        assert(symbol_kind(src[pos]) is Some);
        if c == '/' && pos + 1 < src.len() {
            assert(!(src[pos] == '/' && src[pos + 1] == '/'));
        }
        lemma_symbols_from(src, pos + 1, line);
        let rest = scan_from(src, pos + 1, line);
        assert forall|i: int| 0 <= i < o.spans.len() implies (#[trigger] o.spans[i]).kind
            == symbol_kind(src[pos + i])->0 by {
            if i > 0 {
                assert(o.spans[i] == rest.spans[i - 1]);
            }
        }
    }
}

/// A text made only of the symbols that stand alone scans to one token per
/// character, of that character's kind, in order, with no error.
pub proof fn lemma_symbols_scan_one_to_one(src: Seq<char>)
    requires
        symbols_only(src),
    ensures
        scan(src).spans.len() == src.len(),
        forall|i: int|
            0 <= i < src.len() ==> (#[trigger] scan(src).spans[i]).kind == symbol_kind(src[i])->0,
        scan(src).errors.len() == 0,
{
    lemma_symbols_from(src, 0, 1);
}

/// `!`, `=`, `<` and `>` take a following `=` into a two-character token and
/// the scan goes on after it; without a following `=` they form a
/// one-character token and the scan goes on with the very next character.
pub proof fn lemma_operator_lookahead(src: Seq<char>, pos: int, line: int)
    requires
        0 <= pos < src.len(),
        alone_kind(src[pos]) is Some,
    ensures
        char_at_is(src, pos + 1, '=') ==> scan_from(src, pos, line) == ({
            let rest = scan_from(src, pos + 2, line);
            Outcome {
                spans: seq![
                    Span { kind: with_equal_kind(src[pos])->0, start: pos, end: pos + 2, line },
                ] + rest.spans,
                errors: rest.errors,
                line: rest.line,
            }
        }),
        !char_at_is(src, pos + 1, '=') ==> scan_from(src, pos, line) == ({
            let rest = scan_from(src, pos + 1, line);
            Outcome {
                spans: seq![Span { kind: alone_kind(src[pos])->0, start: pos, end: pos + 1, line }]
                    + rest.spans,
                errors: rest.errors,
                line: rest.line,
            }
        }),
{
    let s = step(src, pos, line);
    assert(step_errors(s) + scan_from(src, s.next, s.line).errors =~= scan_from(
        src,
        s.next,
        s.line,
    ).errors);
}

/// A line comment adds nothing to a scan: it goes on from the end of the
/// line as if the comment were not there, and when a newline ends the
/// comment, on the next line after it.
pub proof fn lemma_line_comment_skipped(src: Seq<char>, pos: int, line: int)
    requires
        0 <= pos,
        pos + 1 < src.len(),
        src[pos] == '/',
        src[pos + 1] == '/',
    ensures
        scan_from(src, pos, line) == scan_from(src, line_end(src, pos + 2), line),
        line_end(src, pos + 2) < src.len() ==> src[line_end(src, pos + 2)] == '\n'
            && scan_from(src, pos, line) == scan_from(src, line_end(src, pos + 2) + 1, line + 1),
{
    let s = step(src, pos, line);
    let e = line_end(src, pos + 2);
    lemma_line_end_no_newline(src, pos + 2);
    assert(step_spans(s) + scan_from(src, e, line).spans =~= scan_from(src, e, line).spans);
    assert(step_errors(s) + scan_from(src, e, line).errors =~= scan_from(src, e, line).errors);
    if e < src.len() {
        let t = step(src, e, line);
        let after = scan_from(src, e + 1, line + 1);
        assert(step_spans(t) + after.spans =~= after.spans);
        assert(step_errors(t) + after.errors =~= after.errors);
    }
}

/// Whether a character has a place in the lexical grammar.
pub open spec fn is_recognized(c: char) -> bool {
    single_kind(c) is Some || alone_kind(c) is Some || c == '/' || is_blank(c) || c == '\n'
}

/// A character outside the grammar adds no token and exactly one error, on
/// the line where it stands, and the scan goes on with the next character.
pub proof fn lemma_unexpected_character_skipped(src: Seq<char>, pos: int, line: int)
    requires
        0 <= pos < src.len(),
        !is_recognized(src[pos]),
    ensures
        scan_from(src, pos, line) == ({
            let rest = scan_from(src, pos + 1, line);
            Outcome { spans: rest.spans, errors: seq![line] + rest.errors, line: rest.line }
        }),
{
    let s = step(src, pos, line);
    let rest = scan_from(src, pos + 1, line);
    assert(step_spans(s) + rest.spans =~= rest.spans);
}

/// Each token of a scan carries one plus the number of newlines before it,
/// whatever blanks and comments stand around them, and the scan ends on one
/// plus the number of all newlines.
pub proof fn lemma_lines_count_newlines(src: Seq<char>)
    ensures
        scan(src).line == 1 + newlines_between(src, 0, src.len() as int),
        forall|i: int|
            0 <= i < scan(src).spans.len() ==> (#[trigger] scan(src).spans[i]).line == 1
                + newlines_between(src, 0, scan(src).spans[i].start),
{
    lemma_scan_from_shape(src, 0, 1);
}

/// The tokens of a whole scan end with exactly one end-of-input token, on
/// the line reached at the end of the input.
pub proof fn lemma_one_end_marker(src: Seq<char>)
    ensures
        ({
            let o = scan(src);
            let ts = lexed_spans(src, o.spans).push(eof_at(o.line));
            &&& ts.last() == eof_at(o.line)
            &&& o.line == 1 + newlines_between(src, 0, src.len() as int)
            &&& forall|i: int| 0 <= i < ts.len() - 1 ==> (#[trigger] ts[i]).kind != TokenType::Eof
        }),
{
    lemma_scan_from_shape(src, 0, 1);
    let o = scan(src);
    let ts = lexed_spans(src, o.spans).push(eof_at(o.line));
    assert forall|i: int| 0 <= i < ts.len() - 1 implies (#[trigger] ts[i]).kind
        != TokenType::Eof by {
        assert(ts[i] == lexed_span(src, o.spans[i]));
    }
}

/// The texts of the tokens of a whole scan are taken verbatim from the
/// source, in order and without overlap: each is the source between its
/// token's start and end, and that is the fixed text of its kind.
pub proof fn lemma_lexemes_verbatim(src: Seq<char>)
    ensures
        ({
            let o = scan(src);
            let ts = lexed_spans(src, o.spans);
            &&& ts.len() == o.spans.len()
            &&& forall|i: int|
                0 <= i < o.spans.len() ==> {
                    let sp = #[trigger] o.spans[i];
                    &&& 0 <= sp.start < sp.end <= src.len()
                    &&& ts[i].text == src.subrange(sp.start, sp.end)
                    &&& ts[i].text == spelling(sp.kind)
                }
            &&& forall|i: int, j: int|
                0 <= i < j < o.spans.len() ==> #[trigger] o.spans[i].end <= #[trigger] o.spans[j].start
        }),
{
    lemma_scan_from_shape(src, 0, 1);
}

} // verus!
