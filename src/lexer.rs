use vstd::prelude::*;

use crate::token::{LexError, TokenKind, TokenView};

verus! {

pub open spec fn is_digit(c: char) -> bool {
    '0' <= c && c <= '9'
}

/// A character that may start an identifier.
pub open spec fn is_alpha(c: char) -> bool {
    ('a' <= c && c <= 'z') || ('A' <= c && c <= 'Z') || c == '_'
}

/// A character that may continue an identifier.
pub open spec fn is_ident_char(c: char) -> bool {
    is_alpha(c) || is_digit(c)
}

/// The kind of a character that is a token by itself.
pub open spec fn single_kind(c: char) -> Option<TokenKind> {
    if c == '(' {
        Some(TokenKind::LeftParen)
    } else if c == ')' {
        Some(TokenKind::RightParen)
    } else if c == '{' {
        Some(TokenKind::LeftBrace)
    } else if c == '}' {
        Some(TokenKind::RightBrace)
    } else if c == '*' {
        Some(TokenKind::Star)
    } else if c == ',' {
        Some(TokenKind::Comma)
    } else if c == '.' {
        Some(TokenKind::Dot)
    } else if c == '+' {
        Some(TokenKind::Plus)
    } else if c == '-' {
        Some(TokenKind::Minus)
    } else if c == ';' {
        Some(TokenKind::Semicolon)
    } else {
        None
    }
}

/// For an operator that may be followed by `=`: its kind alone, and its kind with the `=`.
pub open spec fn pair_kinds(c: char) -> Option<(TokenKind, TokenKind)> {
    if c == '=' {
        Some((TokenKind::Equal, TokenKind::EqualEqual))
    } else if c == '!' {
        Some((TokenKind::Bang, TokenKind::BangEqual))
    } else if c == '<' {
        Some((TokenKind::Less, TokenKind::LessEqual))
    } else if c == '>' {
        Some((TokenKind::Greater, TokenKind::GreaterEqual))
    } else {
        None
    }
}

/// The reserved words and their kinds.
pub open spec fn keyword_table() -> Seq<(Seq<char>, TokenKind)> {
    seq![
        (seq!['a', 'n', 'd'], TokenKind::And),
        (seq!['c', 'l', 'a', 's', 's'], TokenKind::Class),
        (seq!['e', 'l', 's', 'e'], TokenKind::Else),
        (seq!['f', 'a', 'l', 's', 'e'], TokenKind::False),
        (seq!['f', 'o', 'r'], TokenKind::For),
        (seq!['f', 'u', 'n'], TokenKind::Fun),
        (seq!['i', 'f'], TokenKind::If),
        (seq!['n', 'i', 'l'], TokenKind::Nil),
        (seq!['o', 'r'], TokenKind::Or),
        (seq!['p', 'r', 'i', 'n', 't'], TokenKind::Print),
        (seq!['r', 'e', 't', 'u', 'r', 'n'], TokenKind::Return),
        (seq!['s', 'u', 'p', 'e', 'r'], TokenKind::Super),
        (seq!['t', 'h', 'i', 's'], TokenKind::This),
        (seq!['t', 'r', 'u', 'e'], TokenKind::True),
        (seq!['v', 'a', 'r'], TokenKind::Var),
        (seq!['w', 'h', 'i', 'l', 'e'], TokenKind::While),
    ]
}

/// The kind of the first entry of `table[i..]` spelled `word`, if any.
pub open spec fn lookup(table: Seq<(Seq<char>, TokenKind)>, word: Seq<char>, i: int) -> Option<
    TokenKind,
>
    decreases table.len() - i,
{
    if i < 0 || i >= table.len() {
        None
    } else if table[i].0 == word {
        Some(table[i].1)
    } else {
        lookup(table, word, i + 1)
    }
}

/// The keyword kind of a word, matched exactly and with its case.
pub open spec fn keyword_of(word: Seq<char>) -> Option<TokenKind> {
    lookup(keyword_table(), word, 0)
}

/// The end of the run of digits that starts at `i`.
pub open spec fn digits_end(line: Seq<char>, i: int) -> int
    decreases line.len() - i,
{
    if 0 <= i < line.len() && is_digit(line[i]) {
        digits_end(line, i + 1)
    } else {
        i
    }
}

/// The end of the run of identifier characters that starts at `i`.
pub open spec fn ident_end(line: Seq<char>, i: int) -> int
    decreases line.len() - i,
{
    if 0 <= i < line.len() && is_ident_char(line[i]) {
        ident_end(line, i + 1)
    } else {
        i
    }
}

/// The first `"` at or after `i`, or the line's length if there is none.
pub open spec fn quote_from(line: Seq<char>, i: int) -> int
    decreases line.len() - i,
{
    if 0 <= i < line.len() && line[i] != '"' {
        quote_from(line, i + 1)
    } else if i < 0 {
        line.len() as int
    } else {
        i
    }
}

/// `s` without its trailing zeros.
pub open spec fn trim_zeros(s: Seq<char>) -> Seq<char>
    decreases s.len(),
{
    if s.len() > 0 && s.last() == '0' {
        trim_zeros(s.drop_last())
    } else {
        s
    }
}

/// The canonical form of a number: an integer gains `.0`; a fraction loses its trailing
/// zeros but keeps at least one digit.
pub open spec fn number_literal(whole: Seq<char>, fraction: Option<Seq<char>>) -> Seq<char> {
    match fraction {
        None => whole + seq!['.', '0'],
        Some(f) => {
            let t = trim_zeros(f);
            whole + seq!['.'] + if t.len() == 0 {
                seq!['0']
            } else {
                t
            }
        },
    }
}

/// A well-formed token.
pub open spec fn token(kind: TokenKind, lexeme: Seq<char>, literal: Seq<char>, ln: nat, start: int, end: int) -> TokenView {
    TokenView { kind, lexeme, literal, line: ln, start: start as nat, end: end as nat, error: None }
}

/// An error token.
pub open spec fn error_token(e: LexError, lexeme: Seq<char>, ln: nat, start: int, end: int) -> TokenView {
    TokenView {
        kind: TokenKind::Error,
        lexeme,
        literal: Seq::empty(),
        line: ln,
        start: start as nat,
        end: end as nat,
        error: Some(e),
    }
}

/// What a string literal opened at `pos` gives, and where scanning goes on.
pub open spec fn string_step(line: Seq<char>, ln: nat, pos: int) -> (Option<TokenView>, int) {
    let q = quote_from(line, pos + 1);
    if q < line.len() {
        (
            Some(token(TokenKind::Str, line.subrange(pos, q + 1), line.subrange(pos + 1, q), ln, pos, q + 1)),
            q + 1,
        )
    } else {
        (
            Some(error_token(LexError::UnterminatedString, line.subrange(pos, line.len() as int), ln, pos, line.len() as int)),
            line.len() as int,
        )
    }
}

/// What a number starting at `pos` gives: a decimal point belongs to the number only when
/// a digit follows it, and a second point right after the fraction is an error.
pub open spec fn number_step(line: Seq<char>, ln: nat, pos: int) -> (Option<TokenView>, int) {
    let d = digits_end(line, pos);
    if d + 1 < line.len() && line[d] == '.' && is_digit(line[d + 1]) {
        let f = digits_end(line, d + 1);
        if f < line.len() && line[f] == '.' {
            (
                Some(error_token(LexError::MultipleDecimalPoints, line.subrange(pos, f + 1), ln, pos, f + 1)),
                f + 1,
            )
        } else {
            let lexeme = line.subrange(pos, f);
            let literal = number_literal(line.subrange(pos, d), Some(line.subrange(d + 1, f)));
            (Some(token(TokenKind::Number, lexeme, literal, ln, pos, f)), f)
        }
    } else {
        let lexeme = line.subrange(pos, d);
        (Some(token(TokenKind::Number, lexeme, number_literal(lexeme, None), ln, pos, d)), d)
    }
}

/// What an identifier or keyword starting at `pos` gives.
pub open spec fn ident_step(line: Seq<char>, ln: nat, pos: int) -> (Option<TokenView>, int) {
    let e = ident_end(line, pos);
    let word = line.subrange(pos, e);
    let kind = match keyword_of(word) {
        Some(k) => k,
        None => TokenKind::Identifier,
    };
    (Some(token(kind, word, Seq::empty(), ln, pos, e)), e)
}

/// One step of the scanner at `pos` (where `pos < line.len()`): the token it emits, if any,
/// and the position where scanning goes on.
pub open spec fn step(line: Seq<char>, ln: nat, pos: int) -> (Option<TokenView>, int) {
    let c = line[pos];
    let one = line.subrange(pos, pos + 1);
    if let Some(k) = single_kind(c) {
        (Some(token(k, one, Seq::empty(), ln, pos, pos + 1)), pos + 1)
    } else if let Some((k1, k2)) = pair_kinds(c) {
        if pos + 1 < line.len() && line[pos + 1] == '=' {
            (Some(token(k2, line.subrange(pos, pos + 2), Seq::empty(), ln, pos, pos + 2)), pos + 2)
        } else {
            (Some(token(k1, one, Seq::empty(), ln, pos, pos + 1)), pos + 1)
        }
    } else if c == '/' {
        if pos + 1 < line.len() && line[pos + 1] == '/' {
            (None, line.len() as int)
        } else {
            (Some(token(TokenKind::Slash, one, Seq::empty(), ln, pos, pos + 1)), pos + 1)
        }
    } else if c == ' ' || c == '\t' {
        (None, pos + 1)
    } else if c == '"' {
        string_step(line, ln, pos)
    } else if is_digit(c) {
        number_step(line, ln, pos)
    } else if is_alpha(c) {
        ident_step(line, ln, pos)
    } else {
        (Some(error_token(LexError::UnexpectedCharacter(c), one, ln, pos, pos + 1)), pos + 1)
    }
}

pub open spec fn opt_seq(t: Option<TokenView>) -> Seq<TokenView> {
    match t {
        Some(t) => seq![t],
        None => Seq::empty(),
    }
}

pub proof fn lemma_digits_end(line: Seq<char>, i: int)
    requires
        0 <= i <= line.len(),
    ensures
        i <= digits_end(line, i) <= line.len(),
        forall|j: int| i <= j < digits_end(line, i) ==> is_digit(line[j]),
        digits_end(line, i) < line.len() ==> !is_digit(line[digits_end(line, i)]),
    decreases line.len() - i,
{
    if i < line.len() && is_digit(line[i]) {
        lemma_digits_end(line, i + 1);
    }
}

pub proof fn lemma_ident_end(line: Seq<char>, i: int)
    requires
        0 <= i <= line.len(),
    ensures
        i <= ident_end(line, i) <= line.len(),
        forall|j: int| i <= j < ident_end(line, i) ==> is_ident_char(line[j]),
        ident_end(line, i) < line.len() ==> !is_ident_char(line[ident_end(line, i)]),
    decreases line.len() - i,
{
    if i < line.len() && is_ident_char(line[i]) {
        lemma_ident_end(line, i + 1);
    }
}

pub proof fn lemma_quote_from(line: Seq<char>, i: int)
    requires
        0 <= i <= line.len(),
    ensures
        i <= quote_from(line, i) <= line.len(),
        forall|j: int| i <= j < quote_from(line, i) ==> line[j] != '"',
        quote_from(line, i) < line.len() ==> line[quote_from(line, i)] == '"',
    decreases line.len() - i,
{
    if i < line.len() && line[i] != '"' {
        lemma_quote_from(line, i + 1);
    }
}

/// Every step moves forward and stays within the line.
pub proof fn lemma_step_advances(line: Seq<char>, ln: nat, pos: int)
    requires
        0 <= pos < line.len(),
    ensures
        pos < step(line, ln, pos).1 <= line.len(),
{
    lemma_digits_end(line, pos);
    lemma_ident_end(line, pos);
    lemma_quote_from(line, pos + 1);
    let d = digits_end(line, pos);
    if d + 1 < line.len() {
        lemma_digits_end(line, d + 1);
    }
}

/// The tokens of `line` from `pos` on, on line number `ln`.
pub open spec fn lex_from(line: Seq<char>, ln: nat, pos: int) -> Seq<TokenView>
    decreases line.len() - pos,
    via lex_from_decreases
{
    if pos < 0 || pos >= line.len() {
        Seq::empty()
    } else {
        let (t, next) = step(line, ln, pos);
        opt_seq(t) + lex_from(line, ln, next)
    }
}

#[via_fn]
proof fn lex_from_decreases(line: Seq<char>, ln: nat, pos: int) {
    if 0 <= pos < line.len() {
        lemma_step_advances(line, ln, pos);
    }
}

/// The tokens of one source line.
pub open spec fn lex_line(line: Seq<char>, ln: nat) -> Seq<TokenView> {
    lex_from(line, ln, 0)
}

/// Whether some token of `ts` reports an error.
pub open spec fn has_error(ts: Seq<TokenView>) -> bool {
    exists|i: int| 0 <= i < ts.len() && ts[i].kind == TokenKind::Error
}

/// No reserved word is scanned as an error.
pub proof fn lemma_keyword_not_error(word: Seq<char>)
    ensures
        keyword_of(word) != Some(TokenKind::Error),
{
    let table = keyword_table();
    assert forall|i: int| 0 <= i < table.len() implies table[i].1 != TokenKind::Error by {}
    lemma_lookup_in_table(table, word, 0);
}

proof fn lemma_lookup_in_table(table: Seq<(Seq<char>, TokenKind)>, word: Seq<char>, i: int)
    requires
        0 <= i,
    ensures
        lookup(table, word, i) is Some ==> exists|j: int| i <= j < table.len() && table[j].1 == lookup(table, word, i)->0,
    decreases table.len() - i,
{
    if i < table.len() && table[i].0 != word {
        lemma_lookup_in_table(table, word, i + 1);
    }
}

pub proof fn lemma_has_error_one(t: TokenView)
    ensures
        has_error(seq![t]) == (t.kind == TokenKind::Error),
        !has_error(Seq::<TokenView>::empty()),
{
    if t.kind == TokenKind::Error {
        assert(seq![t][0] == t);
    }
}

pub proof fn lemma_has_error_concat(a: Seq<TokenView>, b: Seq<TokenView>)
    ensures
        has_error(a + b) == (has_error(a) || has_error(b)),
{
    if has_error(a + b) {
        let i = choose|i: int| 0 <= i < (a + b).len() && (a + b)[i].kind == TokenKind::Error;
        if i < a.len() {
            assert(a[i] == (a + b)[i]);
        } else {
            assert(b[i - a.len()] == (a + b)[i]);
        }
    }
    if has_error(a) {
        let i = choose|i: int| 0 <= i < a.len() && a[i].kind == TokenKind::Error;
        assert((a + b)[i] == a[i]);
    }
    if has_error(b) {
        let i = choose|i: int| 0 <= i < b.len() && b[i].kind == TokenKind::Error;
        assert((a + b)[a.len() + i] == b[i]);
    }
}

/// The number of the line after line `ln`; line numbers stop at the largest `u64`.
pub open spec fn next_line(ln: nat) -> nat {
    if ln < u64::MAX {
        ln + 1
    } else {
        ln
    }
}

/// The end-of-input token on line `ln`.
pub open spec fn eof_token(ln: nat) -> TokenView {
    token(TokenKind::Eof, Seq::empty(), Seq::empty(), ln, 0, 0)
}

} // verus!
