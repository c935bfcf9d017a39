use vstd::prelude::*;

use crate::lexer::{
    digits_end, error_token, has_error, ident_end, is_alpha, is_digit, keyword_of, keyword_table,
    lemma_digits_end, lemma_has_error_concat, lemma_has_error_one, lemma_ident_end,
    lemma_keyword_not_error, lemma_quote_from, lemma_step_advances, lex_from, lex_line, lookup,
    next_line, opt_seq, pair_kinds, quote_from, single_kind, step, token, trim_zeros, eof_token,
};
use crate::text::{chars_of, push_char, string_of};
use crate::token::{LexError, Token, TokenKind, views};

verus! {

/// An ASCII digit.
fn is_digit_char(c: char) -> (r: bool)
    ensures
        r == is_digit(c),
{
    '0' <= c && c <= '9'
}

/// A character that may start an identifier.
fn is_alpha_char(c: char) -> (r: bool)
    ensures
        r == is_alpha(c),
{
    ('a' <= c && c <= 'z') || ('A' <= c && c <= 'Z') || c == '_'
}

/// The kind of a character that is a token by itself.
fn single_kind_of(c: char) -> (r: Option<TokenKind>)
    ensures
        r == single_kind(c),
{
    match c {
        '(' => Some(TokenKind::LeftParen),
        ')' => Some(TokenKind::RightParen),
        '{' => Some(TokenKind::LeftBrace),
        '}' => Some(TokenKind::RightBrace),
        '*' => Some(TokenKind::Star),
        ',' => Some(TokenKind::Comma),
        '.' => Some(TokenKind::Dot),
        '+' => Some(TokenKind::Plus),
        '-' => Some(TokenKind::Minus),
        ';' => Some(TokenKind::Semicolon),
        _ => None,
    }
}

/// Whether `word` is spelled exactly as `chars[lo..hi]`.
fn same_chars(word: &Vec<char>, chars: &Vec<char>, lo: usize, hi: usize) -> (r: bool)
    requires
        lo <= hi <= chars@.len(),
    ensures
        r == (word@ == chars@.subrange(lo as int, hi as int)),
{
    if word.len() != hi - lo {
        return false;
    }
    let mut k: usize = 0;
    while k < word.len()
        invariant
            word@.len() == hi - lo,
            lo <= hi <= chars@.len(),
            k <= word@.len(),
            forall|j: int| 0 <= j < k ==> word@[j] == chars@[lo + j],
        decreases word@.len() - k,
    {
        if word[k] != chars[lo + k] {
            assert(word@[k as int] != chars@.subrange(lo as int, hi as int)[k as int]);
            return false;
        }
        k += 1;
    }
    assert(word@ =~= chars@.subrange(lo as int, hi as int));
    true
}

fn digits_end_exec(chars: &Vec<char>, i: usize) -> (r: usize)
    requires
        i <= chars@.len(),
    ensures
        r == digits_end(chars@, i as int),
{
    let mut j: usize = i;
    while j < chars.len() && is_digit_char(chars[j])
        invariant
            i <= j <= chars@.len(),
            digits_end(chars@, j as int) == digits_end(chars@, i as int),
        decreases chars@.len() - j,
    {
        j += 1;
    }
    j
}

fn ident_end_exec(chars: &Vec<char>, i: usize) -> (r: usize)
    requires
        i <= chars@.len(),
    ensures
        r == ident_end(chars@, i as int),
{
    let mut j: usize = i;
    while j < chars.len() && (is_alpha_char(chars[j]) || is_digit_char(chars[j]))
        invariant
            i <= j <= chars@.len(),
            ident_end(chars@, j as int) == ident_end(chars@, i as int),
        decreases chars@.len() - j,
    {
        j += 1;
    }
    j
}

fn quote_from_exec(chars: &Vec<char>, i: usize) -> (r: usize)
    requires
        i <= chars@.len(),
    ensures
        r == quote_from(chars@, i as int),
{
    let mut j: usize = i;
    while j < chars.len() && chars[j] != '"'
        invariant
            i <= j <= chars@.len(),
            quote_from(chars@, j as int) == quote_from(chars@, i as int),
        decreases chars@.len() - j,
    {
        j += 1;
    }
    j
}

/// The fixed table of reserved words and their kinds.
pub struct Keywords {
    entries: Vec<(Vec<char>, TokenKind)>,
}

impl Keywords {
    /// The table holds exactly the reserved words.
    pub closed spec fn wf(&self) -> bool {
        &&& self.entries@.len() == keyword_table().len()
        &&& forall|i: int|
            0 <= i < keyword_table().len() ==> (#[trigger] self.entries@[i]).0@ == keyword_table()[i].0
                && self.entries@[i].1 == keyword_table()[i].1
    }

    pub fn new() -> (r: Self)
        ensures
            r.wf(),
    {
        let entries = vec![
            (vec!['a', 'n', 'd'], TokenKind::And),
            (vec!['c', 'l', 'a', 's', 's'], TokenKind::Class),
            (vec!['e', 'l', 's', 'e'], TokenKind::Else),
            (vec!['f', 'a', 'l', 's', 'e'], TokenKind::False),
            (vec!['f', 'o', 'r'], TokenKind::For),
            (vec!['f', 'u', 'n'], TokenKind::Fun),
            (vec!['i', 'f'], TokenKind::If),
            (vec!['n', 'i', 'l'], TokenKind::Nil),
            (vec!['o', 'r'], TokenKind::Or),
            (vec!['p', 'r', 'i', 'n', 't'], TokenKind::Print),
            (vec!['r', 'e', 't', 'u', 'r', 'n'], TokenKind::Return),
            (vec!['s', 'u', 'p', 'e', 'r'], TokenKind::Super),
            (vec!['t', 'h', 'i', 's'], TokenKind::This),
            (vec!['t', 'r', 'u', 'e'], TokenKind::True),
            (vec!['v', 'a', 'r'], TokenKind::Var),
            (vec!['w', 'h', 'i', 'l', 'e'], TokenKind::While),
        ];
        let r = Keywords { entries };
        assert(r.wf());
        r
    }

    /// The keyword kind of the word `chars[lo..hi]`, if it is one.
    pub fn kind_of(&self, chars: &Vec<char>, lo: usize, hi: usize) -> (r: Option<TokenKind>)
        requires
            self.wf(),
            lo <= hi <= chars@.len(),
        ensures
            r == keyword_of(chars@.subrange(lo as int, hi as int)),
    {
        let ghost word = chars@.subrange(lo as int, hi as int);
        let mut i: usize = 0;
        while i < self.entries.len()
            invariant
                self.wf(),
                lo <= hi <= chars@.len(),
                i <= self.entries@.len(),
                word == chars@.subrange(lo as int, hi as int),
                lookup(keyword_table(), word, i as int) == keyword_of(word),
            decreases self.entries@.len() - i,
        {
            assert(self.entries@[i as int].0@ == keyword_table()[i as int].0);
            assert(lookup(keyword_table(), word, i as int) == if keyword_table()[i as int].0 == word {
                Some(keyword_table()[i as int].1)
            } else {
                lookup(keyword_table(), word, i + 1)
            });
            let entry = &self.entries[i];
            let same = same_chars(&entry.0, chars, lo, hi);
            assert(entry.0@ == keyword_table()[i as int].0);
            if same {
                return Some(self.entries[i].1);
            }
            i += 1;
        }
        None
    }
}

/// The scanner's state: the tokens so far, the current line and whether any error was seen.
pub struct Tokenizer {
    pub found_error: bool,
    pub line_number: u64,
    pub tokens: Vec<Token>,
    pub keywords: Keywords,
}

/// The state after one step at `pos` from `pre`, which went on at `next`.
pub open spec fn stepped(pre: Tokenizer, post: Tokenizer, line: Seq<char>, pos: int, next: int) -> bool {
    let (t, n) = step(line, pre.line_number as nat, pos);
    &&& next == n
    &&& views(post.tokens@) == views(pre.tokens@) + opt_seq(t)
    &&& post.found_error == (pre.found_error || has_error(opt_seq(t)))
    &&& post.line_number == pre.line_number
    &&& post.keywords == pre.keywords
}

impl Tokenizer {
    /// The keyword table is the fixed one.
    pub open spec fn wf(&self) -> bool {
        self.keywords.wf()
    }

    pub fn new() -> (r: Self)
        ensures
            r.wf(),
            !r.found_error,
            r.line_number == 1,
            r.tokens@.len() == 0,
    {
        Tokenizer { found_error: false, line_number: 1, tokens: Vec::new(), keywords: Keywords::new() }
    }

    /// Appends a well-formed token spelled `chars[start..end]` on the current line.
    fn add_token(&mut self, kind: TokenKind, chars: &Vec<char>, start: usize, end: usize, literal: String)
        requires
            start <= end <= chars@.len(),
            kind != TokenKind::Error,
        ensures
            views(final(self).tokens@) == views(old(self).tokens@) + seq![
                token(kind, chars@.subrange(start as int, end as int), literal@, old(self).line_number as nat, start as int, end as int),
            ],
            !has_error(seq![
                token(kind, chars@.subrange(start as int, end as int), literal@, old(self).line_number as nat, start as int, end as int),
            ]),
            final(self).found_error == old(self).found_error,
            final(self).line_number == old(self).line_number,
            final(self).keywords == old(self).keywords,
    {
        let lexeme = string_of(chars, start, end);
        let t = Token::new(kind, lexeme, literal, self.line_number, start as u64, end as u64, None);
        self.tokens.push(t);
        proof {
            assert(views(self.tokens@) =~= views(old(self).tokens@) + seq![t@]);
            lemma_has_error_one(t@);
        }
    }

    /// Appends an error token spelled `chars[start..end]` and records that an error was seen.
    fn add_error(&mut self, e: LexError, chars: &Vec<char>, start: usize, end: usize)
        requires
            start <= end <= chars@.len(),
        ensures
            views(final(self).tokens@) == views(old(self).tokens@) + seq![
                error_token(e, chars@.subrange(start as int, end as int), old(self).line_number as nat, start as int, end as int),
            ],
            has_error(seq![
                error_token(e, chars@.subrange(start as int, end as int), old(self).line_number as nat, start as int, end as int),
            ]),
            final(self).found_error,
            final(self).line_number == old(self).line_number,
            final(self).keywords == old(self).keywords,
    {
        let lexeme = string_of(chars, start, end);
        let t = Token::new(TokenKind::Error, lexeme, String::new(), self.line_number, start as u64, end as u64, Some(e));
        self.tokens.push(t);
        self.found_error = true;
        proof {
            assert(views(self.tokens@) =~= views(old(self).tokens@) + seq![t@]);
            lemma_has_error_one(t@);
        }
    }

    /// `=` or `==`.
    fn handle_equal(&mut self, chars: &Vec<char>, i: usize) -> (next: usize)
        requires
            i < chars.len(),
            chars@[i as int] == '=',
        ensures
            stepped(*old(self), *final(self), chars@, i as int, next as int),
    {
        if i < chars.len() - 1 && chars[i + 1] == '=' {
            self.add_token(TokenKind::EqualEqual, chars, i, i + 2, String::new());
            i + 2
        } else {
            self.add_token(TokenKind::Equal, chars, i, i + 1, String::new());
            i + 1
        }
    }

    /// `!` or `!=`.
    fn handle_bang(&mut self, chars: &Vec<char>, i: usize) -> (next: usize)
        requires
            i < chars.len(),
            chars@[i as int] == '!',
        ensures
            stepped(*old(self), *final(self), chars@, i as int, next as int),
    {
        if i < chars.len() - 1 && chars[i + 1] == '=' {
            self.add_token(TokenKind::BangEqual, chars, i, i + 2, String::new());
            i + 2
        } else {
            self.add_token(TokenKind::Bang, chars, i, i + 1, String::new());
            i + 1
        }
    }

    /// `<` or `<=`.
    fn handle_less(&mut self, chars: &Vec<char>, i: usize) -> (next: usize)
        requires
            i < chars.len(),
            chars@[i as int] == '<',
        ensures
            stepped(*old(self), *final(self), chars@, i as int, next as int),
    {
        if i < chars.len() - 1 && chars[i + 1] == '=' {
            self.add_token(TokenKind::LessEqual, chars, i, i + 2, String::new());
            i + 2
        } else {
            self.add_token(TokenKind::Less, chars, i, i + 1, String::new());
            i + 1
        }
    }

    /// `>` or `>=`.
    fn handle_greater(&mut self, chars: &Vec<char>, i: usize) -> (next: usize)
        requires
            i < chars.len(),
            chars@[i as int] == '>',
        ensures
            stepped(*old(self), *final(self), chars@, i as int, next as int),
    {
        if i < chars.len() - 1 && chars[i + 1] == '=' {
            self.add_token(TokenKind::GreaterEqual, chars, i, i + 2, String::new());
            i + 2
        } else {
            self.add_token(TokenKind::Greater, chars, i, i + 1, String::new());
            i + 1
        }
    }

    /// A `/`, or the start of a comment that runs to the end of the line.
    fn handle_slash(&mut self, chars: &Vec<char>, i: usize) -> (next: usize)
        requires
            i < chars.len(),
            chars@[i as int] == '/',
        ensures
            stepped(*old(self), *final(self), chars@, i as int, next as int),
    {
        if i < chars.len() - 1 && chars[i + 1] == '/' {
            proof {
                assert(views(self.tokens@) =~= views(self.tokens@) + opt_seq(None));
            }
            chars.len()
        } else {
            self.add_token(TokenKind::Slash, chars, i, i + 1, String::new());
            i + 1
        }
    }

    /// Scans one line held as characters, on the current line number.
    pub(crate) fn scan_chars(&mut self, chars: &Vec<char>)
        requires
            old(self).wf(),
        ensures
            final(self).wf(),
            views(final(self).tokens@) == views(old(self).tokens@) + lex_line(chars@, old(self).line_number as nat),
            final(self).found_error == (old(self).found_error || has_error(lex_line(chars@, old(self).line_number as nat))),
            final(self).line_number == old(self).line_number,
    {
        let ghost line = chars@;
        let ghost ln = self.line_number as nat;
        let mut i: usize = 0;
        assert(views(self.tokens@) + lex_from(line, ln, 0) == views(old(self).tokens@) + lex_line(line, ln));
        while i < chars.len()
            invariant
                self.wf(),
                line == chars@,
                ln == old(self).line_number,
                self.line_number as nat == ln,
                i <= line.len(),
                views(self.tokens@) + lex_from(line, ln, i as int) == views(old(self).tokens@) + lex_line(line, ln),
                (self.found_error || has_error(lex_from(line, ln, i as int))) == (old(self).found_error || has_error(lex_line(line, ln))),
            decreases line.len() - i,
        {
            let ghost pre = *self;
            let c = chars[i];
            let next: usize;
            if let Some(k) = single_kind_of(c) {
                self.add_token(k, chars, i, i + 1, String::new());
                next = i + 1;
            } else if c == '=' {
                next = self.handle_equal(chars, i);
            } else if c == '!' {
                next = self.handle_bang(chars, i);
            } else if c == '<' {
                next = self.handle_less(chars, i);
            } else if c == '>' {
                next = self.handle_greater(chars, i);
            } else if c == '/' {
                next = self.handle_slash(chars, i);
            } else if c == ' ' || c == '\t' {
                proof {
                    assert(views(self.tokens@) =~= views(self.tokens@) + opt_seq(None));
                }
                next = i + 1;
            } else if c == '"' {
                next = self.handle_string(chars, i);
            } else if is_digit_char(c) {
                next = self.handle_number(chars, i);
            } else if is_alpha_char(c) {
                next = self.handle_identifier(chars, i);
            } else {
                next = self.handle_unexpected(chars, i);
            }
            proof {
                assert(stepped(pre, *self, line, i as int, next as int));
                lemma_step_advances(line, ln, i as int);
                let t = step(line, ln, i as int).0;
                assert(lex_from(line, ln, i as int) == opt_seq(t) + lex_from(line, ln, next as int));
                lemma_has_error_concat(opt_seq(t), lex_from(line, ln, next as int));
                assert(views(pre.tokens@) + lex_from(line, ln, i as int) =~= views(self.tokens@) + lex_from(line, ln, next as int));
            }
            i = next;
        }
        proof {
            assert(views(self.tokens@) + lex_from(line, ln, i as int) =~= views(self.tokens@));
        }
    }

    /// Scans one source line, then moves to the next line number.
    pub fn tokenize(&mut self, line: &str)
        requires
            old(self).wf(),
        ensures
            final(self).wf(),
            views(final(self).tokens@) == views(old(self).tokens@) + lex_line(line@, old(self).line_number as nat),
            final(self).found_error == (old(self).found_error || has_error(lex_line(line@, old(self).line_number as nat))),
            final(self).line_number == next_line(old(self).line_number as nat),
    {
        let chars = chars_of(line);
        self.scan_chars(&chars);
        self.next_line();
    }

    /// Moves to the next line number.
    pub(crate) fn next_line(&mut self)
        ensures
            final(self).line_number == next_line(old(self).line_number as nat),
            final(self).tokens == old(self).tokens,
            final(self).found_error == old(self).found_error,
            final(self).keywords == old(self).keywords,
    {
        if self.line_number < u64::MAX {
            self.line_number = self.line_number + 1;
        }
    }

    /// Ends the token sequence with the end-of-input token.
    pub fn add_eof(&mut self)
        requires
            old(self).wf(),
        ensures
            final(self).wf(),
            views(final(self).tokens@) == views(old(self).tokens@).push(eof_token(old(self).line_number as nat)),
            final(self).found_error == old(self).found_error,
            final(self).line_number == old(self).line_number,
    {
        let t = Token::new(TokenKind::Eof, String::new(), String::new(), self.line_number, 0, 0, None);
        self.tokens.push(t);
        proof {
            assert(views(self.tokens@) =~= views(old(self).tokens@).push(t@));
        }
    }

    /// A string literal opened at `i`: up to the next `"` on the line, or an error.
    fn handle_string(&mut self, chars: &Vec<char>, i: usize) -> (next: usize)
        requires
            i < chars.len(),
            chars@[i as int] == '"',
        ensures
            stepped(*old(self), *final(self), chars@, i as int, next as int),
    {
        let q = quote_from_exec(chars, i + 1);
        proof {
            lemma_quote_from(chars@, i + 1);
        }
        if q < chars.len() {
            let literal = string_of(chars, i + 1, q);
            self.add_token(TokenKind::Str, chars, i, q + 1, literal);
            q + 1
        } else {
            self.add_error(LexError::UnterminatedString, chars, i, chars.len());
            chars.len()
        }
    }

    /// A number starting at `i`, with its canonical literal.
    fn handle_number(&mut self, chars: &Vec<char>, i: usize) -> (next: usize)
        requires
            i < chars.len(),
            is_digit(chars@[i as int]),
        ensures
            stepped(*old(self), *final(self), chars@, i as int, next as int),
    {
        let ghost line = chars@;
        let d = digits_end_exec(chars, i);
        proof {
            lemma_digits_end(line, i as int);
        }
        if d < chars.len() - 1 && chars[d] == '.' && is_digit_char(chars[d + 1]) {
            let f = digits_end_exec(chars, d + 1);
            proof {
                lemma_digits_end(line, d + 1);
            }
            if f < chars.len() && chars[f] == '.' {
                self.add_error(LexError::MultipleDecimalPoints, chars, i, f + 1);
                return f + 1;
            }
            let ghost fraction = line.subrange(d + 1, f as int);
            let mut t: usize = f;
            while t > d + 2 && chars[t - 1] == '0'
                invariant
                    d + 2 <= t <= f <= line.len(),
                    line == chars@,
                    fraction == line.subrange(d + 1, f as int),
                    trim_zeros(line.subrange(d + 1, t as int)) == trim_zeros(fraction),
                decreases t,
            {
                assert(line.subrange(d + 1, t as int).drop_last() =~= line.subrange(d + 1, t - 1));
                t -= 1;
            }
            proof {
                let kept = line.subrange(d + 1, t as int);
                assert(kept.last() == line[t - 1]);
                if line[t - 1] == '0' {
                    assert(t == d + 2);
                    assert(kept.drop_last() =~= Seq::<char>::empty());
                    assert(trim_zeros(kept) == trim_zeros(Seq::<char>::empty()));
                    assert(line.subrange(i as int, t as int) =~= line.subrange(i as int, d as int) + seq!['.'] + seq!['0']);
                } else {
                    assert(trim_zeros(kept) == kept);
                    assert(line.subrange(i as int, t as int) =~= line.subrange(i as int, d as int) + seq!['.'] + kept);
                }
            }
            let literal = string_of(chars, i, t);
            self.add_token(TokenKind::Number, chars, i, f, literal);
            f
        } else {
            let mut literal = string_of(chars, i, d);
            push_char(&mut literal, '.');
            push_char(&mut literal, '0');
            proof {
                assert(literal@ =~= line.subrange(i as int, d as int) + seq!['.', '0']);
            }
            self.add_token(TokenKind::Number, chars, i, d, literal);
            d
        }
    }

    /// An identifier or keyword starting at `i`.
    fn handle_identifier(&mut self, chars: &Vec<char>, i: usize) -> (next: usize)
        requires
            old(self).wf(),
            i < chars.len(),
            is_alpha(chars@[i as int]),
        ensures
            stepped(*old(self), *final(self), chars@, i as int, next as int),
    {
        let e = ident_end_exec(chars, i);
        proof {
            lemma_ident_end(chars@, i as int);
        }
        let kind = match self.keywords.kind_of(chars, i, e) {
            Some(k) => k,
            None => TokenKind::Identifier,
        };
        proof {
            lemma_keyword_not_error(chars@.subrange(i as int, e as int));
        }
        self.add_token(kind, chars, i, e, String::new());
        e
    }

    /// A character that starts no token: an error, after which scanning goes on.
    fn handle_unexpected(&mut self, chars: &Vec<char>, i: usize) -> (next: usize)
        requires
            i < chars.len(),
            single_kind(chars@[i as int]) is None,
            pair_kinds(chars@[i as int]) is None,
            !is_digit(chars@[i as int]),
            !is_alpha(chars@[i as int]),
            chars@[i as int] != '/',
            chars@[i as int] != ' ',
            chars@[i as int] != '\t',
            chars@[i as int] != '"',
        ensures
            stepped(*old(self), *final(self), chars@, i as int, next as int),
    {
        self.add_error(LexError::UnexpectedCharacter(chars[i]), chars, i, i + 1);
        i + 1
    }
}
} // verus!
