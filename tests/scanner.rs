use rlox::scanner::Scanner;
use rlox::token::{Token, TokenType};

#[test]
fn test_is_at_end_empty_source() {
    let scanner = Scanner::new(String::new());
    assert!(scanner.is_at_end(), "Should be at end with empty source");
}

#[test]
fn test_is_at_end_at_start() {
    let scanner = Scanner::new("hello".to_string());
    assert!(!scanner.is_at_end(), "Should not be at end at start of source");
}

#[test]
fn test_is_at_end_in_middle() {
    let mut scanner = Scanner::new("hello".to_string());
    scanner.current = 2;
    assert!(!scanner.is_at_end(), "Should not be at end in middle of source");
}

#[test]
fn test_is_at_end_at_end() {
    let mut scanner = Scanner::new("hello".to_string());
    scanner.current = 5; // length of "hello"
    assert!(scanner.is_at_end(), "Should be at end of source");
}

#[test]
fn test_is_at_end_past_end() {
    let mut scanner = Scanner::new("hello".to_string());
    scanner.current = 6; // beyond length of "hello"
    assert!(scanner.is_at_end(), "Should be at end when past source length");
}

#[test]
fn test_is_at_end_with_unicode() {
    let mut scanner = Scanner::new("你好".to_string());
    scanner.current = 6; // UTF-8 byte length of "你好"
    assert!(scanner.is_at_end(), "Should handle end position correctly with Unicode string");
}

#[test]
fn test_advance_single_char() {
    let mut scanner = Scanner::new("a".to_string());
    assert_eq!(scanner.advance(), 'a');
    assert_eq!(scanner.current, 1);
}

#[test]
fn test_advance_multiple_chars() {
    let mut scanner = Scanner::new("hello".to_string());
    assert_eq!(scanner.advance(), 'h');
    assert_eq!(scanner.advance(), 'e');
    assert_eq!(scanner.current, 2);
}

#[test]
fn test_advance_with_unicode() {
    let mut scanner = Scanner::new("你好".to_string());
    assert_eq!(scanner.advance(), '你');
    assert_eq!(scanner.advance(), '好');
    assert_eq!(scanner.current, 2);
}

#[test]
fn test_advance_with_special_chars() {
    let mut scanner = Scanner::new("a\n\t".to_string());
    assert_eq!(scanner.advance(), 'a');
    assert_eq!(scanner.advance(), '\n');
    assert_eq!(scanner.advance(), '\t');
    assert_eq!(scanner.current, 3);
}

#[test]
fn test_match_with_matching_char() {
    let mut scanner = Scanner::new("==".to_string());
    scanner.advance(); // 移动到第一个 '=' 之后
    assert!(scanner.match_('='), "应该匹配第二个 '='");
    assert_eq!(scanner.current, 2);
}

#[test]
fn test_match_with_non_matching_char() {
    let mut scanner = Scanner::new("=!".to_string());
    scanner.advance(); // 移动到 '=' 之后
    assert!(!scanner.match_('='), "不应该匹配 '='");
    assert_eq!(scanner.current, 1); // current 不应该改变
}

#[test]
fn test_match_at_end() {
    let mut scanner = Scanner::new("=".to_string());
    scanner.advance(); // 移动到末尾
    assert!(!scanner.match_('='), "在末尾不应该匹配任何字符");
    assert_eq!(scanner.current, 1);
}

#[test]
fn test_match_with_unicode() {
    let mut scanner = Scanner::new("你好".to_string());
    scanner.advance(); // 移动到 '你' 之后
    assert!(scanner.match_('好'), "应该匹配 '好' 字");
    assert_eq!(scanner.current, 2);
}

#[test]
fn test_match_with_special_chars() {
    let mut scanner = Scanner::new("\n\n".to_string());
    scanner.advance(); // 移动到第一个换行符之后
    assert!(scanner.match_('\n'), "应该匹配第二个换行符");
    assert_eq!(scanner.current, 2);
}

#[test]
fn test_peek_next_empty_source() {
    let scanner = Scanner::new(String::new());
    assert_eq!(scanner.peek_next(), None, "空源代码应该返回 None");
}

#[test]
fn test_peek_next_single_char() {
    let scanner = Scanner::new("a".to_string());
    assert_eq!(scanner.peek_next(), None, "单字符源代码在开始位置应该返回 None");
}

#[test]
fn test_peek_next_multiple_chars() {
    let mut scanner = Scanner::new("hello".to_string());
    assert_eq!(scanner.peek_next(), Some('e'), "应该返回第二个字符");
    
    scanner.current = 3; // 移动到 'l'
    assert_eq!(scanner.peek_next(), Some('o'), "应该返回最后一个字符");
}

#[test]
fn test_peek_next_at_end() {
    let mut scanner = Scanner::new("hi".to_string());
    scanner.current = 1; // 移动到最后一个字符
    assert_eq!(scanner.peek_next(), None, "在最后一个字符时应该返回 None");
}

#[test]
fn test_peek_next_with_unicode() {
    let scanner = Scanner::new("你好世界".to_string());
    assert_eq!(scanner.peek_next(), Some('好'), "应该正确返回下一个 Unicode 字符");
}

#[test]
fn test_peek_next_with_special_chars() {
    let scanner = Scanner::new("a\n\t".to_string());
    assert_eq!(scanner.peek_next(), Some('\n'), "应该正确返回特殊字符");
}

// 辅助函数：提取Token类型的向量
fn get_token_types(tokens: &[Token]) -> Vec<TokenType> {
    tokens.iter().map(|t| t.token_type.clone()).collect()
}

#[test]
fn test_single_character_tokens() {
    let source = "(){},.-+;*";
    let mut scanner = Scanner::new(source.to_string());
    scanner.scan_tokens();
    
    let expected = vec![
        TokenType::LeftParen,
        TokenType::RightParen,
        TokenType::LeftBrace,
        TokenType::RightBrace,
        TokenType::Comma,
        TokenType::Dot,
        TokenType::Minus,
        TokenType::Plus,
        TokenType::Semicolon,
        TokenType::Star,
    ];
    assert_eq!(get_token_types(&scanner.tokens), expected);
}

#[test]
fn test_double_character_tokens() {
    let mut scanner = Scanner::new("!= == <= >= = < >".to_string());
    scanner.scan_tokens();
    
    let expected = vec![
        TokenType::BangEqual,
        TokenType::EqualEqual,
        TokenType::LessEqual,
        TokenType::GreaterEqual,
        TokenType::Equal,
        TokenType::Less,
        TokenType::Greater,
    ];
    assert_eq!(get_token_types(&scanner.tokens), expected);
}

#[test]
fn test_comment_skipping() {
    let mut scanner = Scanner::new("// comment\n+".to_string());
    scanner.scan_tokens();
    
    assert_eq!(scanner.tokens.len(), 1);
    assert_eq!(scanner.tokens[0].token_type, TokenType::Plus);
    assert_eq!(scanner.tokens[0].line, 2);
}

#[test]
fn test_whitespace_handling() {
    let mut scanner = Scanner::new("  \t\r\n".to_string());
    scanner.scan_tokens();
    
    assert!(scanner.tokens.is_empty());
    assert_eq!(scanner.line, 2);
}

#[test]
fn test_line_counting() {
    let mut scanner = Scanner::new("+\n-\n*".to_string());
    scanner.scan_tokens();
    
    assert_eq!(scanner.tokens[0].line, 1);
    assert_eq!(scanner.tokens[1].line, 2);
    assert_eq!(scanner.tokens[2].line, 3);
}

#[test]
fn test_mixed_operators() {
    let mut scanner = Scanner::new("!===// test".to_string());
    scanner.scan_tokens();
    
    let expected = vec![
        TokenType::BangEqual,
        TokenType::EqualEqual,
    ];
    assert_eq!(get_token_types(&scanner.tokens), expected);
}

#[test]
fn test_unterminated_comment() {
    let mut scanner = Scanner::new("// This comment has no newline".to_string());
    scanner.scan_tokens();
    
    assert!(scanner.tokens.is_empty());
    assert_eq!(scanner.line, 1);
}

#[test]
fn test_multiline_processing() {
    let mut scanner = Scanner::new("{\n// comment\n}".to_string());
    scanner.scan_tokens();
    
    assert_eq!(scanner.tokens.len(), 2);
    assert_eq!(scanner.tokens[0].line, 1);
    assert_eq!(scanner.tokens[1].line, 3);
}
