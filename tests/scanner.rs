use lox_scanner::source::{scan, ScanResult};
use lox_scanner::tokenizer::Tokenizer;
use lox_scanner::token::{LexError, Token, TokenKind};

fn kinds(r: &ScanResult) -> Vec<TokenKind> {
    r.tokens.iter().map(|t| t.kind).collect()
}

fn check(t: &Token, kind: TokenKind, lexeme: &str, literal: &str) {
    assert_eq!(t.kind, kind);
    assert_eq!(t.lexeme, lexeme);
    assert_eq!(t.literal, literal);
}

#[test]
fn empty_source_gives_only_eof() {
    let r = scan("");
    assert_eq!(kinds(&r), vec![TokenKind::Eof]);
    check(&r.tokens[0], TokenKind::Eof, "", "");
    assert!(!r.had_error);
}

#[test]
fn last_token_is_eof() {
    for src in ["(", "\"abc", "1.2.3", "var x = 1; // c", "@#", "a\nb\n"] {
        let r = scan(src);
        let last = r.tokens.last().unwrap();
        assert_eq!(last.kind, TokenKind::Eof);
        assert_eq!(last.lexeme, "");
    }
}

#[test]
fn left_paren_alone() {
    let r = scan("(");
    assert_eq!(r.tokens.len(), 2);
    check(&r.tokens[0], TokenKind::LeftParen, "(", "");
    check(&r.tokens[1], TokenKind::Eof, "", "");
    assert!(!r.had_error);
}

#[test]
fn every_single_character_token() {
    let cases = [
        ("(", TokenKind::LeftParen),
        (")", TokenKind::RightParen),
        ("{", TokenKind::LeftBrace),
        ("}", TokenKind::RightBrace),
        ("*", TokenKind::Star),
        (",", TokenKind::Comma),
        (".", TokenKind::Dot),
        ("+", TokenKind::Plus),
        ("-", TokenKind::Minus),
        (";", TokenKind::Semicolon),
        ("/", TokenKind::Slash),
    ];
    for (src, kind) in cases {
        let r = scan(src);
        assert_eq!(kinds(&r), vec![kind, TokenKind::Eof]);
        check(&r.tokens[0], kind, src, "");
        assert_eq!(r.tokens[0].start, 0);
        assert_eq!(r.tokens[0].end, 1);
    }
}

#[test]
fn longer_operator_wins() {
    let r = scan("==");
    assert_eq!(kinds(&r), vec![TokenKind::EqualEqual, TokenKind::Eof]);
    check(&r.tokens[0], TokenKind::EqualEqual, "==", "");
    let r = scan("=");
    assert_eq!(kinds(&r), vec![TokenKind::Equal, TokenKind::Eof]);
    let cases = [
        ("!=", TokenKind::BangEqual),
        ("<=", TokenKind::LessEqual),
        (">=", TokenKind::GreaterEqual),
        ("!", TokenKind::Bang),
        ("<", TokenKind::Less),
        (">", TokenKind::Greater),
    ];
    for (src, kind) in cases {
        let r = scan(src);
        assert_eq!(kinds(&r), vec![kind, TokenKind::Eof]);
        check(&r.tokens[0], kind, src, "");
    }
}

#[test]
fn three_equals_are_two_tokens() {
    let r = scan("===");
    assert_eq!(kinds(&r), vec![TokenKind::EqualEqual, TokenKind::Equal, TokenKind::Eof]);
    assert_eq!(r.tokens[1].start, 2);
}

#[test]
fn comment_ends_the_line() {
    let r = scan("a ( // b c )");
    assert_eq!(kinds(&r), vec![TokenKind::Identifier, TokenKind::LeftParen, TokenKind::Eof]);
    let r = scan("// only a comment");
    assert_eq!(kinds(&r), vec![TokenKind::Eof]);
    let r = scan("(//)\n)");
    assert_eq!(kinds(&r), vec![TokenKind::LeftParen, TokenKind::RightParen, TokenKind::Eof]);
    assert_eq!(r.tokens[1].line, 2);
}

#[test]
fn unterminated_string_is_an_error() {
    let r = scan("\"abc");
    assert_eq!(kinds(&r), vec![TokenKind::Error, TokenKind::Eof]);
    assert_eq!(r.tokens[0].error, Some(LexError::UnterminatedString));
    assert_eq!(r.tokens[0].error.unwrap().message(), "Unterminated string.");
    assert_eq!(r.tokens[0].lexeme, "\"abc");
    assert!(r.had_error);
}

#[test]
fn string_literal_is_unquoted() {
    let r = scan("\"hi there\" x");
    assert_eq!(kinds(&r), vec![TokenKind::Str, TokenKind::Identifier, TokenKind::Eof]);
    check(&r.tokens[0], TokenKind::Str, "\"hi there\"", "hi there");
    assert_eq!(r.tokens[0].end, 10);
    let r = scan("\"\"");
    check(&r.tokens[0], TokenKind::Str, "\"\"", "");
    assert!(!r.had_error);
}

#[test]
fn number_canonical_forms() {
    check(&scan("123").tokens[0], TokenKind::Number, "123", "123.0");
    check(&scan("123.450").tokens[0], TokenKind::Number, "123.450", "123.45");
    check(&scan("200.100").tokens[0], TokenKind::Number, "200.100", "200.1");
    check(&scan("200.00").tokens[0], TokenKind::Number, "200.00", "200.0");
    check(&scan("0.5").tokens[0], TokenKind::Number, "0.5", "0.5");
    check(&scan("007").tokens[0], TokenKind::Number, "007", "007.0");
}

#[test]
fn trailing_dot_is_a_separate_token() {
    let r = scan("123.");
    assert_eq!(kinds(&r), vec![TokenKind::Number, TokenKind::Dot, TokenKind::Eof]);
    check(&r.tokens[0], TokenKind::Number, "123", "123.0");
    check(&r.tokens[1], TokenKind::Dot, ".", "");
    assert!(!r.had_error);
}

#[test]
fn second_decimal_point_is_an_error() {
    let r = scan("1.2.3");
    assert_eq!(kinds(&r), vec![TokenKind::Error, TokenKind::Number, TokenKind::Eof]);
    assert_eq!(r.tokens[0].error, Some(LexError::MultipleDecimalPoints));
    assert_eq!(r.tokens[0].error.unwrap().message(), "Multiple decimal points in number.");
    assert_eq!(r.tokens[0].lexeme, "1.2.");
    check(&r.tokens[1], TokenKind::Number, "3", "3.0");
    assert!(r.had_error);
}

#[test]
fn keyword_and_identifier() {
    let r = scan("print");
    assert_eq!(kinds(&r), vec![TokenKind::Print, TokenKind::Eof]);
    check(&r.tokens[0], TokenKind::Print, "print", "");
    let r = scan("printer");
    assert_eq!(kinds(&r), vec![TokenKind::Identifier, TokenKind::Eof]);
    check(&r.tokens[0], TokenKind::Identifier, "printer", "");
    let r = scan("Print");
    assert_eq!(kinds(&r), vec![TokenKind::Identifier, TokenKind::Eof]);
}

#[test]
fn every_keyword() {
    let cases = [
        ("and", TokenKind::And),
        ("class", TokenKind::Class),
        ("else", TokenKind::Else),
        ("false", TokenKind::False),
        ("for", TokenKind::For),
        ("fun", TokenKind::Fun),
        ("if", TokenKind::If),
        ("nil", TokenKind::Nil),
        ("or", TokenKind::Or),
        ("print", TokenKind::Print),
        ("return", TokenKind::Return),
        ("super", TokenKind::Super),
        ("this", TokenKind::This),
        ("true", TokenKind::True),
        ("var", TokenKind::Var),
        ("while", TokenKind::While),
    ];
    for (src, kind) in cases {
        let r = scan(src);
        assert_eq!(kinds(&r), vec![kind, TokenKind::Eof]);
        check(&r.tokens[0], kind, src, "");
    }
}

#[test]
fn identifiers_take_underscores_and_digits() {
    let r = scan("_a1 b_2");
    assert_eq!(kinds(&r), vec![TokenKind::Identifier, TokenKind::Identifier, TokenKind::Eof]);
    check(&r.tokens[0], TokenKind::Identifier, "_a1", "");
    check(&r.tokens[1], TokenKind::Identifier, "b_2", "");
}

#[test]
fn unexpected_character_does_not_stop_the_scan() {
    let r = scan("@(");
    assert_eq!(kinds(&r), vec![TokenKind::Error, TokenKind::LeftParen, TokenKind::Eof]);
    assert_eq!(r.tokens[0].error, Some(LexError::UnexpectedCharacter('@')));
    assert_eq!(r.tokens[0].error.unwrap().message(), "Unexpected character: @");
    assert!(r.had_error);
    let r = scan("é");
    assert_eq!(r.tokens[0].error, Some(LexError::UnexpectedCharacter('é')));
    assert_eq!(r.tokens[0].lexeme, "é");
}

#[test]
fn whitespace_is_skipped() {
    let r = scan(" \t( \t)");
    assert_eq!(kinds(&r), vec![TokenKind::LeftParen, TokenKind::RightParen, TokenKind::Eof]);
    assert_eq!(r.tokens[0].start, 2);
    assert_eq!(r.tokens[1].start, 5);
}

#[test]
fn lines_are_numbered_from_one() {
    let r = scan("(\n)\r\n\n;");
    assert_eq!(
        kinds(&r),
        vec![TokenKind::LeftParen, TokenKind::RightParen, TokenKind::Semicolon, TokenKind::Eof]
    );
    assert_eq!(r.tokens[0].line, 1);
    assert_eq!(r.tokens[1].line, 2);
    assert_eq!(r.tokens[1].end, 1);
    assert_eq!(r.tokens[2].line, 4);
    assert_eq!(r.tokens[3].line, 5);
    let r = scan("(\n");
    assert_eq!(r.tokens[1].line, 2);
}

#[test]
fn scanning_twice_gives_the_same_tokens() {
    let src = "var x = 12.50; // note\nprint \"a\" + x >= 3 @";
    let a = scan(src);
    let b = scan(src);
    assert_eq!(a.tokens.len(), b.tokens.len());
    assert_eq!(a.had_error, b.had_error);
    for (s, t) in a.tokens.iter().zip(b.tokens.iter()) {
        assert_eq!(s.kind, t.kind);
        assert_eq!(s.lexeme, t.lexeme);
        assert_eq!(s.literal, t.literal);
        assert_eq!(s.line, t.line);
        assert_eq!(s.start, t.start);
        assert_eq!(s.end, t.end);
        assert_eq!(s.error, t.error);
    }
}

#[test]
fn tokenizer_line_by_line() {
    let mut t = Tokenizer::new();
    assert_eq!(t.line_number, 1);
    t.tokenize("var a = 1;");
    t.tokenize("a != 2 // done");
    t.add_eof();
    let k: Vec<TokenKind> = t.tokens.iter().map(|x| x.kind).collect();
    assert_eq!(
        k,
        vec![
            TokenKind::Var,
            TokenKind::Identifier,
            TokenKind::Equal,
            TokenKind::Number,
            TokenKind::Semicolon,
            TokenKind::Identifier,
            TokenKind::BangEqual,
            TokenKind::Number,
            TokenKind::Eof,
        ]
    );
    assert_eq!(t.tokens[5].line, 2);
    assert_eq!(t.tokens[8].line, 3);
    assert_eq!(t.line_number, 3);
    assert!(!t.found_error);
}

#[test]
fn kind_names() {
    assert_eq!(TokenKind::LeftParen.name(), "LEFT_PAREN");
    assert_eq!(TokenKind::EqualEqual.name(), "EQUAL_EQUAL");
    assert_eq!(TokenKind::Str.name(), "STRING");
    assert_eq!(TokenKind::While.name(), "WHILE");
    assert_eq!(TokenKind::Eof.name(), "EOF");
}

#[test]
fn token_new_keeps_its_fields() {
    let t = Token::new(TokenKind::Number, "2".to_string(), "2.0".to_string(), 3, 4, 5, None);
    check(&t, TokenKind::Number, "2", "2.0");
    assert_eq!((t.line, t.start, t.end), (3, 4, 5));
    assert_eq!(t.error, None);
}

#[test]
fn slashes_inside_a_string_are_not_a_comment() {
    let r = scan("\"a//b\" c");
    assert_eq!(kinds(&r), vec![TokenKind::Str, TokenKind::Identifier, TokenKind::Eof]);
    check(&r.tokens[0], TokenKind::Str, "\"a//b\"", "a//b");
    let r = scan("a / / b");
    assert_eq!(
        kinds(&r),
        vec![TokenKind::Identifier, TokenKind::Slash, TokenKind::Slash, TokenKind::Identifier, TokenKind::Eof]
    );
}

#[test]
fn error_spans_within_the_line() {
    let r = scan("x = \"ab");
    let e = &r.tokens[2];
    assert_eq!(e.kind, TokenKind::Error);
    assert_eq!((e.start, e.end), (4, 7));
    let r = scan("  12.5.1");
    let e = &r.tokens[0];
    assert_eq!(e.error, Some(LexError::MultipleDecimalPoints));
    assert_eq!((e.start, e.end), (2, 7));
}

#[test]
fn error_flag_stays_set() {
    let mut t = Tokenizer::new();
    t.tokenize("#");
    assert!(t.found_error);
    t.tokenize("fine");
    assert!(t.found_error);
    t.add_eof();
    assert_eq!(t.tokens.last().unwrap().kind, TokenKind::Eof);
    assert_eq!(t.tokens.last().unwrap().line, 3);
}

#[test]
fn multi_byte_characters_count_once() {
    let r = scan("\"héllo\" ü");
    check(&r.tokens[0], TokenKind::Str, "\"héllo\"", "héllo");
    assert_eq!(r.tokens[0].end, 7);
    assert_eq!(r.tokens[1].error, Some(LexError::UnexpectedCharacter('ü')));
    assert_eq!(r.tokens[1].start, 8);
}
