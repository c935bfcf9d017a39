use vstd::prelude::*;

use crate::lexer::{
    eof_token, has_error, ident_end, lemma_has_error_concat, lemma_has_error_one, lemma_ident_end,
    lemma_keyword_not_error, lemma_step_advances, lex_from, lex_line, next_line, opt_seq, step,
};
use crate::text::chars_of;
use crate::token::{Token, TokenKind, TokenView, views};
use crate::tokenizer::Tokenizer;

verus! {

/// The end of the line that starts at `pos`: the next line feed, or the end of the source.
pub open spec fn line_end(src: Seq<char>, pos: int) -> int
    decreases src.len() - pos,
{
    if 0 <= pos < src.len() && src[pos] != '\n' {
        line_end(src, pos + 1)
    } else {
        pos
    }
}

/// A line without the carriage return that may end it.
pub open spec fn strip_cr(l: Seq<char>) -> Seq<char> {
    if l.len() > 0 && l.last() == '\r' {
        l.drop_last()
    } else {
        l
    }
}

pub proof fn lemma_line_end(src: Seq<char>, pos: int)
    requires
        0 <= pos <= src.len(),
    ensures
        pos <= line_end(src, pos) <= src.len(),
        forall|j: int| pos <= j < line_end(src, pos) ==> src[j] != '\n',
        line_end(src, pos) < src.len() ==> src[line_end(src, pos)] == '\n',
    decreases src.len() - pos,
{
    if pos < src.len() && src[pos] != '\n' {
        lemma_line_end(src, pos + 1);
    }
}

/// The tokens of the source from `pos` on, where the line at `pos` is number `ln`; and the
/// number that the line after the last one gets.
pub open spec fn scan_from(src: Seq<char>, ln: nat, pos: int) -> (Seq<TokenView>, nat)
    decreases src.len() - pos,
    via scan_from_decreases
{
    if pos < 0 || pos >= src.len() {
        (Seq::empty(), ln)
    } else {
        let e = line_end(src, pos);
        let next = if e < src.len() {
            e + 1
        } else {
            e
        };
        let rest = scan_from(src, next_line(ln), next);
        (lex_line(strip_cr(src.subrange(pos, e)), ln) + rest.0, rest.1)
    }
}

#[via_fn]
proof fn scan_from_decreases(src: Seq<char>, ln: nat, pos: int) {
    if 0 <= pos < src.len() {
        lemma_line_end(src, pos);
    }
}

/// The token sequence of a whole source: its lines from number 1, then the end-of-input token.
pub open spec fn scan_tokens(src: Seq<char>) -> Seq<TokenView> {
    let (ts, ln) = scan_from(src, 1, 0);
    ts.push(eof_token(ln))
}

/// Every token is well formed or carries a diagnostic, never both.
pub open spec fn all_wf(ts: Seq<TokenView>) -> bool {
    forall|i: int| 0 <= i < ts.len() ==> (#[trigger] ts[i]).wf()
}

proof fn lemma_all_wf_concat(a: Seq<TokenView>, b: Seq<TokenView>)
    requires
        all_wf(a),
        all_wf(b),
    ensures
        all_wf(a + b),
{
    assert forall|i: int| 0 <= i < (a + b).len() implies (#[trigger] (a + b)[i]).wf() by {
        if i < a.len() {
            assert((a + b)[i] == a[i]);
        } else {
            assert((a + b)[i] == b[i - a.len()]);
        }
    }
}

proof fn lemma_step_wf(line: Seq<char>, ln: nat, pos: int)
    requires
        0 <= pos < line.len(),
    ensures
        all_wf(opt_seq(step(line, ln, pos).0)),
{
    lemma_ident_end(line, pos);
    lemma_keyword_not_error(line.subrange(pos, ident_end(line, pos)));
}

proof fn lemma_lex_from_wf(line: Seq<char>, ln: nat, pos: int)
    ensures
        all_wf(lex_from(line, ln, pos)),
    decreases line.len() - pos,
{
    if 0 <= pos < line.len() {
        lemma_step_advances(line, ln, pos);
        lemma_step_wf(line, ln, pos);
        lemma_lex_from_wf(line, ln, step(line, ln, pos).1);
        lemma_all_wf_concat(opt_seq(step(line, ln, pos).0), lex_from(line, ln, step(line, ln, pos).1));
    }
}

proof fn lemma_scan_from_wf(src: Seq<char>, ln: nat, pos: int)
    ensures
        all_wf(scan_from(src, ln, pos).0),
    decreases src.len() - pos,
{
    if 0 <= pos < src.len() {
        let e = line_end(src, pos);
        lemma_line_end(src, pos);
        let next = if e < src.len() {
            e + 1
        } else {
            e
        };
        lemma_lex_from_wf(strip_cr(src.subrange(pos, e)), ln, 0);
        lemma_scan_from_wf(src, next_line(ln), next);
        lemma_all_wf_concat(lex_line(strip_cr(src.subrange(pos, e)), ln), scan_from(src, next_line(ln), next).0);
    }
}

/// Every token of a scan is well formed or carries a diagnostic, never both.
pub proof fn scan_tokens_wf(src: Seq<char>)
    ensures
        all_wf(scan_tokens(src)),
{
    let (ts, ln) = scan_from(src, 1, 0);
    lemma_scan_from_wf(src, 1, 0);
    assert(all_wf(seq![eof_token(ln)]));
    lemma_all_wf_concat(ts, seq![eof_token(ln)]);
    assert(scan_tokens(src) =~= ts + seq![eof_token(ln)]);
}

/// The scanner's output: every token, and whether any of them reports an error.
pub struct ScanResult {
    pub tokens: Vec<Token>,
    pub had_error: bool,
}

fn line_end_exec(chars: &Vec<char>, i: usize) -> (r: usize)
    requires
        i <= chars@.len(),
    ensures
        r == line_end(chars@, i as int),
{
    let mut j: usize = i;
    while j < chars.len() && chars[j] != '\n'
        invariant
            i <= j <= chars@.len(),
            line_end(chars@, j as int) == line_end(chars@, i as int),
        decreases chars@.len() - j,
    {
        j += 1;
    }
    j
}

fn chars_between(chars: &Vec<char>, lo: usize, hi: usize) -> (r: Vec<char>)
    requires
        lo <= hi <= chars@.len(),
    ensures
        r@ == chars@.subrange(lo as int, hi as int),
{
    let mut out: Vec<char> = Vec::new();
    let mut k: usize = lo;
    while k < hi
        invariant
            lo <= k <= hi <= chars@.len(),
            out@ == chars@.subrange(lo as int, k as int),
        decreases hi - k,
    {
        out.push(chars[k]);
        assert(chars@.subrange(lo as int, k + 1) =~= chars@.subrange(lo as int, k as int).push(chars@[k as int]));
        k += 1;
    }
    out
}

/// Scans a whole source: its lines are split at line feeds (a carriage return before one is
/// dropped, and a final line feed opens no new line), numbered from 1 (numbers stop at the
/// largest `u64`), and followed by one end-of-input token.
pub fn scan(source: &str) -> (r: ScanResult)
    ensures
        views(r.tokens@) == scan_tokens(source@),
        r.had_error == has_error(scan_tokens(source@)),
        r.tokens@.len() > 0,
        r.tokens@.last().kind == TokenKind::Eof,
        r.tokens@.last().lexeme@.len() == 0,
        all_wf(views(r.tokens@)),
{
    let chars = chars_of(source);
    let ghost src = source@;
    let mut t = Tokenizer::new();
    let mut pos: usize = 0;
    proof {
        assert(views(t.tokens@) =~= Seq::<TokenView>::empty());
        assert(views(t.tokens@) + scan_from(src, 1, 0).0 =~= scan_from(src, 1, 0).0);
        lemma_has_error_one(eof_token(0));
    }
    while pos < chars.len()
        invariant
            t.wf(),
            src == chars@,
            pos <= src.len(),
            views(t.tokens@) + scan_from(src, t.line_number as nat, pos as int).0 == scan_from(src, 1, 0).0,
            scan_from(src, t.line_number as nat, pos as int).1 == scan_from(src, 1, 0).1,
            t.found_error == has_error(views(t.tokens@)),
        decreases src.len() - pos,
    {
        let ghost pre = t;
        let e = line_end_exec(&chars, pos);
        proof {
            lemma_line_end(src, pos as int);
        }
        let mut stop = e;
        if stop > pos && chars[stop - 1] == '\r' {
            stop = stop - 1;
        }
        let line = chars_between(&chars, pos, stop);
        proof {
            let whole = src.subrange(pos as int, e as int);
            if e > pos && src[e - 1] == '\r' {
                assert(whole.last() == src[e - 1]);
                assert(strip_cr(whole) =~= line@);
            } else {
                if whole.len() > 0 {
                    assert(whole.last() == src[e - 1]);
                }
                assert(strip_cr(whole) =~= line@);
            }
        }
        t.scan_chars(&line);
        t.next_line();
        let next = if e < chars.len() {
            e + 1
        } else {
            e
        };
        proof {
            let ts = lex_line(line@, pre.line_number as nat);
            let rest = scan_from(src, t.line_number as nat, next as int);
            assert(scan_from(src, pre.line_number as nat, pos as int).0 == ts + rest.0);
            assert(views(t.tokens@) + rest.0 =~= views(pre.tokens@) + (ts + rest.0));
            lemma_has_error_concat(views(pre.tokens@), ts);
        }
        pos = next;
    }
    proof {
        assert(views(t.tokens@) + scan_from(src, t.line_number as nat, pos as int).0 =~= views(t.tokens@));
    }
    t.add_eof();
    proof {
        lemma_has_error_one(eof_token(scan_from(src, 1, 0).1));
        lemma_has_error_concat(scan_from(src, 1, 0).0, seq![eof_token(scan_from(src, 1, 0).1)]);
        assert(scan_tokens(src) =~= scan_from(src, 1, 0).0 + seq![eof_token(scan_from(src, 1, 0).1)]);
        assert(views(t.tokens@)[t.tokens@.len() - 1] == t.tokens@.last()@);
        scan_tokens_wf(src);
    }
    ScanResult { tokens: t.tokens, had_error: t.found_error }
}
} // verus!
