use rlox::lox::{Diagnostic, Lox, Mode, Scanner, DATA_ERROR_STATUS};
use rlox::token::{punctuation_text, Token, TokenType};
use rlox::Args;

fn kinds(tokens: &[Token]) -> Vec<TokenType> {
    tokens.iter().map(|t| t.token_type).collect()
}

fn scan_all(source: &str) -> (Vec<Token>, Vec<Diagnostic>) {
    let mut lox = Lox::new();
    lox.run(source)
}

#[test]
fn whole_scan_single_symbols_end_with_marker() {
    let (tokens, diagnostics) = scan_all("(){},.-+;*");
    assert_eq!(
        kinds(&tokens),
        vec![
            TokenType::LeftParen,
            TokenType::RightParen,
            TokenType::LeftBrace,
            TokenType::RightBrace,
            TokenType::Comma,
            TokenType::Dot,
            TokenType::Minus,
            TokenType::Plus,
            TokenType::Semicolon,
            TokenType::Star,
            TokenType::Eof,
        ]
    );
    assert!(diagnostics.is_empty());
}

#[test]
fn whole_scan_lone_slash_is_divide() {
    let (tokens, _) = scan_all("/+/");
    assert_eq!(kinds(&tokens), vec![TokenType::Slash, TokenType::Plus, TokenType::Slash, TokenType::Eof]);
}

#[test]
fn whole_scan_lookahead_is_greedy() {
    let (tokens, _) = scan_all("!==");
    assert_eq!(kinds(&tokens), vec![TokenType::BangEqual, TokenType::Equal, TokenType::Eof]);
    assert_eq!(tokens[0].lexeme, "!=");
    assert_eq!(tokens[1].lexeme, "=");
}

#[test]
fn whole_scan_each_operator_pair() {
    let (tokens, _) = scan_all("!=! ==<=<>=>");
    assert_eq!(
        kinds(&tokens),
        vec![
            TokenType::BangEqual,
            TokenType::Bang,
            TokenType::EqualEqual,
            TokenType::LessEqual,
            TokenType::Less,
            TokenType::GreaterEqual,
            TokenType::Greater,
            TokenType::Eof,
        ]
    );
}

#[test]
fn whole_scan_comment_then_next_line() {
    let (tokens, _) = scan_all("// c\n+");
    assert_eq!(kinds(&tokens), vec![TokenType::Plus, TokenType::Eof]);
    assert_eq!(tokens[0].line, 2);
    assert_eq!(tokens[1].line, 2);
}

#[test]
fn whole_scan_lines_follow_newlines() {
    let (tokens, _) = scan_all("+\n-\n*");
    let lines: Vec<usize> = tokens.iter().map(|t| t.line).collect();
    assert_eq!(lines, vec![1, 2, 3, 3]);
}

#[test]
fn whole_scan_newlines_among_blanks_and_comments() {
    let (tokens, _) = scan_all(" \t\r\n // x\n\n  ;");
    assert_eq!(kinds(&tokens), vec![TokenType::Semicolon, TokenType::Eof]);
    assert_eq!(tokens[0].line, 4);
}

#[test]
fn whole_scan_unexpected_character_reported_and_skipped() {
    let mut lox = Lox::new();
    let (tokens, diagnostics) = lox.run("~+");
    assert_eq!(kinds(&tokens), vec![TokenType::Plus, TokenType::Eof]);
    assert_eq!(diagnostics.len(), 1);
    assert_eq!(diagnostics[0].line, 1);
    assert_eq!(diagnostics[0].context, "");
    assert_eq!(diagnostics[0].message, "Unexpected character.");
    assert!(lox.had_error);
}

#[test]
fn whole_scan_unexpected_characters_on_their_lines() {
    let (tokens, diagnostics) = scan_all("1\n(2)\n#");
    assert_eq!(kinds(&tokens), vec![TokenType::LeftParen, TokenType::RightParen, TokenType::Eof]);
    let lines: Vec<usize> = diagnostics.iter().map(|d| d.line).collect();
    assert_eq!(lines, vec![1, 2, 3]);
}

#[test]
fn whole_scan_empty_input_gives_only_marker() {
    let (tokens, diagnostics) = scan_all("");
    assert_eq!(tokens.len(), 1);
    assert_eq!(tokens[0].token_type, TokenType::Eof);
    assert_eq!(tokens[0].lexeme, "");
    assert_eq!(tokens[0].line, 1);
    assert!(diagnostics.is_empty());
}

#[test]
fn whole_scan_marker_on_last_line() {
    let (tokens, _) = scan_all("+\n\n");
    assert_eq!(tokens.last().unwrap().token_type, TokenType::Eof);
    assert_eq!(tokens.last().unwrap().line, 3);
    assert_eq!(tokens.iter().filter(|t| t.token_type == TokenType::Eof).count(), 1);
}

#[test]
fn whole_scan_lexemes_rebuild_source_without_gaps() {
    let source = "( !=\t>= // note\n);";
    let (tokens, _) = scan_all(source);
    let joined: String = tokens.iter().map(|t| t.lexeme.as_str()).collect();
    assert_eq!(joined, "(!=>=);");
}

#[test]
fn whole_scan_second_call_hands_out_nothing() {
    let mut scanner = Scanner::new("+".to_string());
    let first = scanner.scan_tokens();
    assert_eq!(kinds(&first), vec![TokenType::Plus, TokenType::Eof]);
    let second = scanner.scan_tokens();
    assert!(second.is_empty());
}

#[test]
fn whole_scan_non_ascii_text() {
    let (tokens, diagnostics) = scan_all("é+ü");
    assert_eq!(kinds(&tokens), vec![TokenType::Plus, TokenType::Eof]);
    assert_eq!(tokens[0].lexeme, "+");
    assert_eq!(diagnostics.len(), 2);
}

#[test]
fn token_new_keeps_its_parts() {
    let t = Token::new(TokenType::Identifier, "name", 7);
    assert_eq!(t.token_type, TokenType::Identifier);
    assert_eq!(t.lexeme, "name");
    assert_eq!(t.line, 7);
}

#[test]
fn punctuation_texts() {
    assert_eq!(punctuation_text(TokenType::LessEqual), "<=");
    assert_eq!(punctuation_text(TokenType::Slash), "/");
    assert_eq!(punctuation_text(TokenType::While), "");
}

#[test]
fn error_has_empty_context() {
    let d = Lox::error(4, "Unexpected character.");
    assert_eq!(d.line, 4);
    assert_eq!(d.context, "");
    assert_eq!(d.message, "Unexpected character.");
}

#[test]
fn exec_chooses_file_or_prompt() {
    let mut lox = Lox::new();
    let with_path = Args { script: Some("a.lox".to_string()) };
    assert!(matches!(lox.exec(&with_path), Mode::RunFile(p) if p == "a.lox"));
    let without = Args { script: None };
    assert!(matches!(lox.exec(&without), Mode::Prompt));
}

#[test]
fn failure_status_after_error_and_reset() {
    let mut lox = Lox::new();
    assert_eq!(lox.failure_status(), None);
    lox.run("+");
    assert_eq!(lox.failure_status(), None);
    lox.run("?");
    assert_eq!(lox.failure_status(), Some(DATA_ERROR_STATUS));
    assert_eq!(DATA_ERROR_STATUS, 65);
    lox.run("+");
    assert!(lox.had_error);
    lox.reset_error();
    assert!(!lox.had_error);
    assert_eq!(lox.failure_status(), None);
}

#[test]
fn cursor_scanner_reports_and_continues() {
    let mut scanner = rlox::scanner::Scanner::new("~+".to_string());
    scanner.scan_tokens();
    assert_eq!(scanner.tokens.len(), 1);
    assert_eq!(scanner.tokens[0].token_type, TokenType::Plus);
    assert_eq!(scanner.diagnostics.len(), 1);
    assert_eq!(scanner.diagnostics[0].line, 1);
}

#[test]
fn cursor_scanner_digits_are_unexpected() {
    let mut scanner = rlox::scanner::Scanner::new("123".to_string());
    scanner.scan_tokens();
    assert!(scanner.tokens.is_empty());
    assert_eq!(scanner.diagnostics.len(), 3);
}

#[test]
fn cursor_scanner_peek() {
    let mut scanner = rlox::scanner::Scanner::new("ab".to_string());
    assert_eq!(scanner.peek(), 'a');
    scanner.advance();
    assert_eq!(scanner.peek(), 'b');
}

#[test]
fn whole_scan_diagnostics_kept_by_scanner() {
    let mut scanner = Scanner::new("a\n~".to_string());
    let tokens = scanner.scan_tokens();
    assert_eq!(kinds(&tokens), vec![TokenType::Eof]);
    assert_eq!(tokens[0].line, 2);
    let lines: Vec<usize> = scanner.diagnostics().iter().map(|d| d.line).collect();
    assert_eq!(lines, vec![1, 2]);
}
