use vstd::prelude::*;

verus! {

/// Classification of a lexical unit.
#[derive(Debug, Clone, Copy, PartialEq, Eq, Structural)]
pub enum TokenType {
    // single character tokens
    LeftParen,
    RightParen,
    LeftBrace,
    RightBrace,
    Comma,
    Dot,
    Minus,
    Plus,
    Semicolon,
    Slash,
    Star,
    // one or two character tokens
    Bang,
    BangEqual,
    Equal,
    EqualEqual,
    Greater,
    GreaterEqual,
    Less,
    LessEqual,
    // literals
    Identifier,
    String,
    Number,
    // keywords
    And,
    Class,
    Else,
    False,
    Fun,
    For,
    If,
    Nil,
    Or,
    Print,
    Return,
    Super,
    This,
    True,
    Var,
    While,
    // end of input
    Eof,
}

} // verus!

verus! {

/// What a token means, as mathematics: its kind, its text and its line.
pub struct Lexed {
    pub kind: TokenType,
    pub text: Seq<char>,
    pub line: int,
}

/// A classified, line-tagged piece of source text.
#[derive(Debug, Clone)]
pub struct Token {
    pub token_type: TokenType,
    pub lexeme: String,
    pub line: usize,
}

impl View for Token {
    type V = Lexed;

    open spec fn view(&self) -> Lexed {
        Lexed { kind: self.token_type, text: self.lexeme@, line: self.line as int }
    }
}

/// The models of a sequence of tokens, in order.
pub open spec fn lexed_all(tokens: Seq<Token>) -> Seq<Lexed> {
    tokens.map_values(|t: Token| t@)
}

impl Token {
    /// Builds a token from its kind, its text and its line.
    pub fn new(token_type: TokenType, lexeme: &str, line: usize) -> (r: Token)
        ensures
            r.token_type == token_type,
            r.lexeme@ == lexeme@,
            r.line == line,
    {
        Token { token_type, lexeme: lexeme.to_owned(), line }
    }
}

/// The fixed text of a punctuation kind; empty for the other kinds.
pub open spec fn spelling(kind: TokenType) -> Seq<char> {
    match kind {
        TokenType::LeftParen => seq!['('],
        TokenType::RightParen => seq![')'],
        TokenType::LeftBrace => seq!['{'],
        TokenType::RightBrace => seq!['}'],
        TokenType::Comma => seq![','],
        TokenType::Dot => seq!['.'],
        TokenType::Minus => seq!['-'],
        TokenType::Plus => seq!['+'],
        TokenType::Semicolon => seq![';'],
        TokenType::Slash => seq!['/'],
        TokenType::Star => seq!['*'],
        TokenType::Bang => seq!['!'],
        TokenType::BangEqual => seq!['!', '='],
        TokenType::Equal => seq!['='],
        TokenType::EqualEqual => seq!['=', '='],
        TokenType::Greater => seq!['>'],
        TokenType::GreaterEqual => seq!['>', '='],
        TokenType::Less => seq!['<'],
        TokenType::LessEqual => seq!['<', '='],
        _ => Seq::empty(),
    }
}

/// The fixed text of a punctuation kind, as a string; empty for the other kinds.
pub fn punctuation_text(kind: TokenType) -> (r: &'static str)
    ensures
        r@ == spelling(kind),
{
    proof {
        lemma_punctuation_text();
        reveal_strlit("");
    }
    match kind {
        TokenType::LeftParen => "(",
        TokenType::RightParen => ")",
        TokenType::LeftBrace => "{",
        TokenType::RightBrace => "}",
        TokenType::Comma => ",",
        TokenType::Dot => ".",
        TokenType::Minus => "-",
        TokenType::Plus => "+",
        TokenType::Semicolon => ";",
        TokenType::Slash => "/",
        TokenType::Star => "*",
        TokenType::Bang => "!",
        TokenType::BangEqual => "!=",
        TokenType::Equal => "=",
        TokenType::EqualEqual => "==",
        TokenType::Greater => ">",
        TokenType::GreaterEqual => ">=",
        TokenType::Less => "<",
        TokenType::LessEqual => "<=",
        _ => "",
    }
}

/// The characters of the punctuation texts.
pub proof fn lemma_punctuation_text()
    ensures
        "("@ == seq!['('],
        ")"@ == seq![')'],
        "{"@ == seq!['{'],
        "}"@ == seq!['}'],
        ","@ == seq![','],
        "."@ == seq!['.'],
        "-"@ == seq!['-'],
        "+"@ == seq!['+'],
        ";"@ == seq![';'],
        "*"@ == seq!['*'],
        "/"@ == seq!['/'],
        "!"@ == seq!['!'],
        "!="@ == seq!['!', '='],
        "="@ == seq!['='],
        "=="@ == seq!['=', '='],
        "<"@ == seq!['<'],
        "<="@ == seq!['<', '='],
        ">"@ == seq!['>'],
        ">="@ == seq!['>', '='],
{
    reveal_strlit("(");
    assert("("@ =~= seq!['(']);
    reveal_strlit(")");
    assert(")"@ =~= seq![')']);
    reveal_strlit("{");
    assert("{"@ =~= seq!['{']);
    reveal_strlit("}");
    assert("}"@ =~= seq!['}']);
    reveal_strlit(",");
    assert(","@ =~= seq![',']);
    reveal_strlit(".");
    assert("."@ =~= seq!['.']);
    reveal_strlit("-");
    assert("-"@ =~= seq!['-']);
    reveal_strlit("+");
    assert("+"@ =~= seq!['+']);
    reveal_strlit(";");
    assert(";"@ =~= seq![';']);
    reveal_strlit("*");
    assert("*"@ =~= seq!['*']);
    reveal_strlit("/");
    assert("/"@ =~= seq!['/']);
    reveal_strlit("!");
    assert("!"@ =~= seq!['!']);
    reveal_strlit("!=");
    assert("!="@ =~= seq!['!', '=']);
    reveal_strlit("=");
    assert("="@ =~= seq!['=']);
    reveal_strlit("==");
    assert("=="@ =~= seq!['=', '=']);
    reveal_strlit("<");
    assert("<"@ =~= seq!['<']);
    reveal_strlit("<=");
    assert("<="@ =~= seq!['<', '=']);
    reveal_strlit(">");
    assert(">"@ =~= seq!['>']);
    reveal_strlit(">=");
    assert(">="@ =~= seq!['>', '=']);
}

} // verus!
