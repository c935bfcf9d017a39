use vstd::prelude::*;

use crate::lexer::{
    digits_end, eof_token, error_token, has_error, ident_end, is_digit, is_ident_char,
    lemma_digits_end, lemma_has_error_one, lemma_ident_end, lemma_quote_from, lemma_step_advances,
    lex_from, lex_line, pair_kinds, quote_from, single_kind, step, token,
};
use crate::source::{lemma_line_end, line_end, scan_from, scan_tokens, strip_cr};
use crate::token::{LexError, TokenKind, TokenView};

verus! {

/// A one-line source without a line feed or a trailing carriage return is that line's
/// tokens followed by the end-of-input token on line 2.
proof fn lemma_scan_one_line(src: Seq<char>)
    requires
        src.len() > 0,
        forall|j: int| 0 <= j < src.len() ==> src[j] != '\n',
        src.last() != '\r',
    ensures
        scan_tokens(src) == lex_line(src, 1) + seq![eof_token(2)],
{
    lemma_line_end(src, 0);
    assert(line_end(src, 0) == src.len());
    assert(src.subrange(0, src.len() as int) =~= src);
    assert(strip_cr(src) == src);
    assert(scan_from(src, 2, src.len() as int) == (Seq::<TokenView>::empty(), 2nat));
    assert(scan_from(src, 1, 0).0 =~= lex_line(src, 1));
    assert(scan_tokens(src) =~= lex_line(src, 1) + seq![eof_token(2)]);
}

/// A character that is a token by itself scans, alone, as exactly that token and the end of
/// input.
pub proof fn single_character_tokens(c: char)
    requires
        single_kind(c) is Some,
    ensures
        scan_tokens(seq![c]) == seq![
            token(single_kind(c)->0, seq![c], Seq::empty(), 1, 0, 1),
            eof_token(2),
        ],
{
    let line = seq![c];
    lemma_scan_one_line(line);
    assert(line.subrange(0, 1) =~= line);
    assert(lex_from(line, 1, 1) == Seq::<TokenView>::empty());
    assert(lex_line(line, 1) =~= seq![token(single_kind(c)->0, seq![c], Seq::empty(), 1, 0, 1)]);
}

/// An operator followed by `=` scans as one two-character token, not as two tokens; alone it
/// scans as its one-character token.
pub proof fn longest_operator_wins(c: char)
    requires
        pair_kinds(c) is Some,
    ensures
        scan_tokens(seq![c, '=']) == seq![
            token((pair_kinds(c)->0).1, seq![c, '='], Seq::empty(), 1, 0, 2),
            eof_token(2),
        ],
        scan_tokens(seq![c]) == seq![
            token((pair_kinds(c)->0).0, seq![c], Seq::empty(), 1, 0, 1),
            eof_token(2),
        ],
{
    let two = seq![c, '='];
    lemma_scan_one_line(two);
    assert(two.subrange(0, 2) =~= two);
    assert(lex_from(two, 1, 2) == Seq::<TokenView>::empty());
    assert(lex_line(two, 1) =~= seq![token((pair_kinds(c)->0).1, two, Seq::empty(), 1, 0, 2)]);
    let one = seq![c];
    lemma_scan_one_line(one);
    assert(one.subrange(0, 1) =~= one);
    assert(lex_from(one, 1, 1) == Seq::<TokenView>::empty());
    assert(lex_line(one, 1) =~= seq![token((pair_kinds(c)->0).0, one, Seq::empty(), 1, 0, 1)]);
}

/// A quote with no closing quote after it on the line gives one error token, for an
/// unterminated string, that runs to the end of the line.
pub proof fn unterminated_string_line(body: Seq<char>, ln: nat)
    requires
        forall|j: int| 0 <= j < body.len() ==> body[j] != '"',
    ensures
        lex_line(seq!['"'] + body, ln) == seq![
            error_token(LexError::UnterminatedString, seq!['"'] + body, ln, 0, body.len() + 1 as int),
        ],
        has_error(lex_line(seq!['"'] + body, ln)),
{
    let line = seq!['"'] + body;
    lemma_quote_from(line, 1);
    if quote_from(line, 1) < line.len() {
        assert(line[quote_from(line, 1)] == body[quote_from(line, 1) - 1]);
    }
    assert(line.subrange(0, line.len() as int) =~= line);
    assert(lex_from(line, ln, line.len() as int) == Seq::<TokenView>::empty());
    let e = error_token(LexError::UnterminatedString, line, ln, 0, body.len() + 1 as int);
    assert(lex_line(line, ln) =~= seq![e]);
    lemma_has_error_one(e);
}

/// A one-line source that opens a string and never closes it scans as one error token, for
/// an unterminated string, and the end of input; the scan reports an error.
pub proof fn unterminated_string_source(body: Seq<char>)
    requires
        forall|j: int| 0 <= j < body.len() ==> body[j] != '"' && body[j] != '\n',
    ensures
        scan_tokens(seq!['"'] + body).len() == 2,
        scan_tokens(seq!['"'] + body)[0].kind == TokenKind::Error,
        scan_tokens(seq!['"'] + body)[0].error == Some(LexError::UnterminatedString),
        scan_tokens(seq!['"'] + body)[1] == eof_token(2),
        has_error(scan_tokens(seq!['"'] + body)),
{
    let src = seq!['"'] + body;
    lemma_line_end(src, 0);
    assert forall|j: int| 0 <= j < src.len() implies src[j] != '\n' by {
        if j > 0 {
            assert(src[j] == body[j - 1]);
        }
    }
    assert(line_end(src, 0) == src.len());
    assert(src.subrange(0, src.len() as int) =~= src);
    let line = strip_cr(src);
    let kept = if body.len() > 0 && body.last() == '\r' {
        body.drop_last()
    } else {
        body
    };
    assert(line =~= seq!['"'] + kept);
    unterminated_string_line(kept, 1);
    assert(scan_from(src, 2, src.len() as int) == (Seq::<TokenView>::empty(), 2nat));
    assert(scan_from(src, 1, 0).0 =~= lex_line(line, 1));
    let ts = scan_tokens(src);
    assert(ts =~= lex_line(line, 1) + seq![eof_token(2)]);
    assert(ts[0] == lex_line(line, 1)[0]);
    assert(ts[0].kind == TokenKind::Error);
}

/// Whether scanning `line` from `pos` stops, between two steps, at `p`.
pub open spec fn reaches(line: Seq<char>, ln: nat, pos: int, p: int) -> bool
    decreases line.len() - pos,
    via reaches_decreases
{
    if pos == p {
        true
    } else if 0 <= pos < line.len() && pos < p {
        reaches(line, ln, step(line, ln, pos).1, p)
    } else {
        false
    }
}

#[via_fn]
proof fn reaches_decreases(line: Seq<char>, ln: nat, pos: int, p: int) {
    if 0 <= pos < line.len() {
        lemma_step_advances(line, ln, pos);
    }
}

proof fn lemma_reaches_bound(line: Seq<char>, ln: nat, pos: int, p: int)
    requires
        reaches(line, ln, pos, p),
    ensures
        pos <= p,
    decreases line.len() - pos,
{
    if pos != p {
        lemma_step_advances(line, ln, pos);
        lemma_reaches_bound(line, ln, step(line, ln, pos).1, p);
    }
}

proof fn lemma_digits_end_prefix(line: Seq<char>, p: int, i: int)
    requires
        0 <= i <= p < line.len(),
        !is_digit(line[p]),
    ensures
        digits_end(line.subrange(0, p), i) == digits_end(line, i),
        digits_end(line, i) <= p,
    decreases p - i,
{
    if i < p && is_digit(line[i]) {
        lemma_digits_end_prefix(line, p, i + 1);
    }
}

proof fn lemma_ident_end_prefix(line: Seq<char>, p: int, i: int)
    requires
        0 <= i <= p < line.len(),
        !is_ident_char(line[p]),
    ensures
        ident_end(line.subrange(0, p), i) == ident_end(line, i),
        ident_end(line, i) <= p,
    decreases p - i,
{
    if i < p && is_ident_char(line[i]) {
        lemma_ident_end_prefix(line, p, i + 1);
    }
}

proof fn lemma_quote_from_prefix(line: Seq<char>, p: int, i: int)
    requires
        0 <= i <= p < line.len(),
        quote_from(line, i) < p,
    ensures
        quote_from(line.subrange(0, p), i) == quote_from(line, i),
    decreases p - i,
{
    lemma_quote_from(line, i);
    if line[i] != '"' {
        lemma_quote_from_prefix(line, p, i + 1);
    }
}

/// A step that ends at or before a `/` at `p` is the same step on the line cut at `p`.
proof fn lemma_step_prefix(line: Seq<char>, ln: nat, pos: int, p: int)
    requires
        0 <= pos < p,
        p + 1 < line.len(),
        line[p] == '/',
        line[p + 1] == '/',
        step(line, ln, pos).1 <= p,
    ensures
        step(line.subrange(0, p), ln, pos) == step(line, ln, pos),
{
    let pre = line.subrange(0, p);
    let c = line[pos];
    assert(pre[pos] == c);
    assert forall|a: int, b: int| 0 <= a <= b <= p implies #[trigger] pre.subrange(a, b) == line.subrange(a, b) by {
        assert(pre.subrange(a, b) =~= line.subrange(a, b));
    }
    if pos + 1 < p {
        assert(pre[pos + 1] == line[pos + 1]);
    }
    if c == '"' {
        lemma_quote_from(line, pos + 1);
        let q = quote_from(line, pos + 1);
        if q < p {
            lemma_quote_from_prefix(line, p, pos + 1);
            assert(pre.subrange(pos, q + 1) == line.subrange(pos, q + 1));
            assert(pre.subrange(pos + 1, q) == line.subrange(pos + 1, q));
        }
        assert(step(pre, ln, pos) == step(line, ln, pos));
    } else if is_digit(c) {
        lemma_digits_end_prefix(line, p, pos);
        lemma_digits_end(line, pos);
        let d = digits_end(line, pos);
        if d < p {
            assert(pre[d] == line[d]);
        }
        if d + 1 < p {
            assert(pre[d + 1] == line[d + 1]);
            lemma_digits_end_prefix(line, p, d + 1);
            lemma_digits_end(line, d + 1);
            let f = digits_end(line, d + 1);
            if f < p {
                assert(pre[f] == line[f]);
            }
            assert(pre.subrange(pos, f) == line.subrange(pos, f));
            assert(pre.subrange(pos, d) == line.subrange(pos, d));
            assert(pre.subrange(d + 1, f) == line.subrange(d + 1, f));
            if f < p {
                assert(pre.subrange(pos, f + 1) == line.subrange(pos, f + 1));
            }
        }
        assert(pre.subrange(pos, d) == line.subrange(pos, d));
        assert(step(pre, ln, pos) == step(line, ln, pos));
    } else if 'a' <= c <= 'z' || 'A' <= c <= 'Z' || c == '_' {
        lemma_ident_end_prefix(line, p, pos);
        lemma_ident_end(line, pos);
        let e = ident_end(line, pos);
        assert(pre.subrange(pos, e) == line.subrange(pos, e));
        assert(step(pre, ln, pos) == step(line, ln, pos));
    } else {
        assert(pre.subrange(pos, pos + 1) == line.subrange(pos, pos + 1));
        if pos + 2 <= p {
            assert(pre.subrange(pos, pos + 2) == line.subrange(pos, pos + 2));
        }
        assert(step(pre, ln, pos) == step(line, ln, pos));
    }
}

proof fn lemma_comment_prefix(line: Seq<char>, ln: nat, pos: int, p: int)
    requires
        0 <= pos,
        p + 1 < line.len(),
        line[p] == '/',
        line[p + 1] == '/',
        reaches(line, ln, pos, p),
    ensures
        lex_from(line, ln, pos) == lex_from(line.subrange(0, p), ln, pos),
    decreases p - pos,
{
    lemma_reaches_bound(line, ln, pos, p);
    if pos == p {
        assert(lex_from(line, ln, line.len() as int) == Seq::<TokenView>::empty());
        assert(lex_from(line, ln, p) =~= Seq::<TokenView>::empty());
    } else {
        lemma_step_advances(line, ln, pos);
        let next = step(line, ln, pos).1;
        lemma_reaches_bound(line, ln, next, p);
        lemma_step_prefix(line, ln, pos, p);
        lemma_comment_prefix(line, ln, next, p);
    }
}

/// A `//` where the scan of a line stands starts a comment: the line gives exactly the
/// tokens of the text before it.
pub proof fn comment_ends_line(line: Seq<char>, ln: nat, p: int)
    requires
        p + 1 < line.len(),
        line[p] == '/',
        line[p + 1] == '/',
        reaches(line, ln, 0, p),
    ensures
        lex_line(line, ln) == lex_line(line.subrange(0, p), ln),
{
    lemma_comment_prefix(line, ln, 0, p);
}

/// Scanning depends on the source alone: two scans of one source give one token sequence.
pub proof fn scan_is_deterministic(src: Seq<char>, first: Seq<TokenView>, second: Seq<TokenView>)
    requires
        first == scan_tokens(src),
        second == scan_tokens(src),
    ensures
        first == second,
{
}

} // verus!
