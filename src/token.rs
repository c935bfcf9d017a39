use vstd::prelude::*;

verus! {

/// The closed set of token kinds produced by the scanner.
#[derive(PartialEq, Eq, Structural, Clone, Copy, Debug)]
pub enum TokenKind {
    LeftParen,
    RightParen,
    LeftBrace,
    RightBrace,
    Star,
    Comma,
    Dot,
    Plus,
    Minus,
    Semicolon,
    Equal,
    EqualEqual,
    Bang,
    BangEqual,
    Less,
    LessEqual,
    Greater,
    GreaterEqual,
    Slash,
    Str,
    Number,
    Identifier,
    And,
    Class,
    Else,
    False,
    For,
    Fun,
    If,
    Nil,
    Or,
    Print,
    Return,
    Super,
    This,
    True,
    Var,
    While,
    Eof,
    Error,
}

/// The printed name of each kind, as in `LEFT_PAREN ( null`.
pub open spec fn kind_name(k: TokenKind) -> Seq<char> {
    match k {
        TokenKind::LeftParen => "LEFT_PAREN"@,
        TokenKind::RightParen => "RIGHT_PAREN"@,
        TokenKind::LeftBrace => "LEFT_BRACE"@,
        TokenKind::RightBrace => "RIGHT_BRACE"@,
        TokenKind::Star => "STAR"@,
        TokenKind::Comma => "COMMA"@,
        TokenKind::Dot => "DOT"@,
        TokenKind::Plus => "PLUS"@,
        TokenKind::Minus => "MINUS"@,
        TokenKind::Semicolon => "SEMICOLON"@,
        TokenKind::Equal => "EQUAL"@,
        TokenKind::EqualEqual => "EQUAL_EQUAL"@,
        TokenKind::Bang => "BANG"@,
        TokenKind::BangEqual => "BANG_EQUAL"@,
        TokenKind::Less => "LESS"@,
        TokenKind::LessEqual => "LESS_EQUAL"@,
        TokenKind::Greater => "GREATER"@,
        TokenKind::GreaterEqual => "GREATER_EQUAL"@,
        TokenKind::Slash => "SLASH"@,
        TokenKind::Str => "STRING"@,
        TokenKind::Number => "NUMBER"@,
        TokenKind::Identifier => "IDENTIFIER"@,
        TokenKind::And => "AND"@,
        TokenKind::Class => "CLASS"@,
        TokenKind::Else => "ELSE"@,
        TokenKind::False => "FALSE"@,
        TokenKind::For => "FOR"@,
        TokenKind::Fun => "FUN"@,
        TokenKind::If => "IF"@,
        TokenKind::Nil => "NIL"@,
        TokenKind::Or => "OR"@,
        TokenKind::Print => "PRINT"@,
        TokenKind::Return => "RETURN"@,
        TokenKind::Super => "SUPER"@,
        TokenKind::This => "THIS"@,
        TokenKind::True => "TRUE"@,
        TokenKind::Var => "VAR"@,
        TokenKind::While => "WHILE"@,
        TokenKind::Eof => "EOF"@,
        TokenKind::Error => "ERROR"@,
    }
}

impl TokenKind {
    /// The printed name of this kind.
    pub fn name(&self) -> (r: &'static str)
        ensures
            r@ == kind_name(*self),
    {
        match self {
            TokenKind::LeftParen => "LEFT_PAREN",
            TokenKind::RightParen => "RIGHT_PAREN",
            TokenKind::LeftBrace => "LEFT_BRACE",
            TokenKind::RightBrace => "RIGHT_BRACE",
            TokenKind::Star => "STAR",
            TokenKind::Comma => "COMMA",
            TokenKind::Dot => "DOT",
            TokenKind::Plus => "PLUS",
            TokenKind::Minus => "MINUS",
            TokenKind::Semicolon => "SEMICOLON",
            TokenKind::Equal => "EQUAL",
            TokenKind::EqualEqual => "EQUAL_EQUAL",
            TokenKind::Bang => "BANG",
            TokenKind::BangEqual => "BANG_EQUAL",
            TokenKind::Less => "LESS",
            TokenKind::LessEqual => "LESS_EQUAL",
            TokenKind::Greater => "GREATER",
            TokenKind::GreaterEqual => "GREATER_EQUAL",
            TokenKind::Slash => "SLASH",
            TokenKind::Str => "STRING",
            TokenKind::Number => "NUMBER",
            TokenKind::Identifier => "IDENTIFIER",
            TokenKind::And => "AND",
            TokenKind::Class => "CLASS",
            TokenKind::Else => "ELSE",
            TokenKind::False => "FALSE",
            TokenKind::For => "FOR",
            TokenKind::Fun => "FUN",
            TokenKind::If => "IF",
            TokenKind::Nil => "NIL",
            TokenKind::Or => "OR",
            TokenKind::Print => "PRINT",
            TokenKind::Return => "RETURN",
            TokenKind::Super => "SUPER",
            TokenKind::This => "THIS",
            TokenKind::True => "TRUE",
            TokenKind::Var => "VAR",
            TokenKind::While => "WHILE",
            TokenKind::Eof => "EOF",
            TokenKind::Error => "ERROR",
        }
    }
}

/// The three non-fatal lexical errors.
#[derive(PartialEq, Eq, Structural, Clone, Copy, Debug)]
pub enum LexError {
    UnterminatedString,
    MultipleDecimalPoints,
    UnexpectedCharacter(char),
}

/// The diagnostic text of a lexical error.
pub open spec fn error_message(e: LexError) -> Seq<char> {
    match e {
        LexError::UnterminatedString => "Unterminated string."@,
        LexError::MultipleDecimalPoints => "Multiple decimal points in number."@,
        LexError::UnexpectedCharacter(c) => "Unexpected character: "@.push(c),
    }
}

impl LexError {
    /// The diagnostic text of this error.
    pub fn message(&self) -> (r: String)
        ensures
            r@ == error_message(*self),
    {
        match self {
            LexError::UnterminatedString => String::from_str("Unterminated string."),
            LexError::MultipleDecimalPoints => String::from_str("Multiple decimal points in number."),
            LexError::UnexpectedCharacter(c) => {
                let mut s = String::from_str("Unexpected character: ");
                crate::text::push_char(&mut s, *c);
                s
            },
        }
    }
}

/// The mathematical value of a token.
pub struct TokenView {
    pub kind: TokenKind,
    pub lexeme: Seq<char>,
    pub literal: Seq<char>,
    pub line: nat,
    pub start: nat,
    pub end: nat,
    pub error: Option<LexError>,
}

impl TokenView {
    /// A token is either well formed or carries a diagnostic, never both.
    pub open spec fn wf(self) -> bool {
        (self.kind == TokenKind::Error) == (self.error is Some)
    }
}

/// One classified unit of source text with its position.
pub struct Token {
    pub kind: TokenKind,
    pub lexeme: String,
    pub literal: String,
    pub line: u64,
    pub start: u64,
    pub end: u64,
    pub error: Option<LexError>,
}

impl View for Token {
    type V = TokenView;

    open spec fn view(&self) -> TokenView {
        TokenView {
            kind: self.kind,
            lexeme: self.lexeme@,
            literal: self.literal@,
            line: self.line as nat,
            start: self.start as nat,
            end: self.end as nat,
            error: self.error,
        }
    }
}

/// The views of a sequence of tokens.
pub open spec fn views(ts: Seq<Token>) -> Seq<TokenView> {
    ts.map_values(|t: Token| t@)
}

impl Token {
    pub fn new(
        kind: TokenKind,
        lexeme: String,
        literal: String,
        line: u64,
        start: u64,
        end: u64,
        error: Option<LexError>,
    ) -> (r: Self)
        requires
            (kind == TokenKind::Error) == (error is Some),
        ensures
            r@ == (TokenView {
                kind,
                lexeme: lexeme@,
                literal: literal@,
                line: line as nat,
                start: start as nat,
                end: end as nat,
                error,
            }),
            r@.wf(),
    {
        Token { kind, lexeme, literal, line, start, end, error }
    }
}

} // verus!
