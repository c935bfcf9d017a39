use vstd::prelude::*;

use crate::text::{push_char, push_string};
use crate::token::{Token, TokenKind, TokenView, views};

verus! {

/// The literal of the token at `j`, or nothing where there is no token.
pub open spec fn literal_at(ts: Seq<TokenView>, j: int) -> Seq<char> {
    if 0 <= j < ts.len() {
        ts[j].literal
    } else {
        Seq::empty()
    }
}

pub open spec fn is_number_at(ts: Seq<TokenView>, j: int) -> bool {
    0 <= j < ts.len() && ts[j].kind == TokenKind::Number
}

/// The text of an addition: `(+  <left> <right>)`.
pub open spec fn plus_text(left: Seq<char>, right: Seq<char>) -> Seq<char> {
    seq!['(', '+', ' ', ' '] + left + seq![' '] + right + seq![')']
}

/// What the token at `i` contributes to the output.
pub open spec fn fold_at(ts: Seq<TokenView>, i: int) -> Seq<Seq<char>> {
    let t = ts[i];
    match t.kind {
        TokenKind::Plus => if is_number_at(ts, i - 1) || is_number_at(ts, i + 1) {
            seq![plus_text(literal_at(ts, i - 1), literal_at(ts, i + 1))]
        } else {
            Seq::empty()
        },
        TokenKind::True | TokenKind::False | TokenKind::Nil => seq![t.lexeme],
        TokenKind::Number | TokenKind::Str => seq![t.literal],
        _ => Seq::empty(),
    }
}

/// The output for the first `n` tokens.
pub open spec fn fold_prefix(ts: Seq<TokenView>, n: int) -> Seq<Seq<char>>
    decreases n,
{
    if n <= 0 {
        Seq::empty()
    } else {
        fold_prefix(ts, n - 1) + fold_at(ts, n - 1)
    }
}

/// The output for a whole token sequence.
pub open spec fn fold(ts: Seq<TokenView>) -> Seq<Seq<char>> {
    fold_prefix(ts, ts.len() as int)
}

pub open spec fn texts(v: Seq<String>) -> Seq<Seq<char>> {
    v.map_values(|s: String| s@)
}

/// The literal folder's state, seen as its tokens and the output so far.
pub struct ParserView {
    pub tokens: Seq<TokenView>,
    pub parsed: Seq<Seq<char>>,
}

/// Turns a token sequence into printable values: literals, and `+` between numbers.
pub struct Parser {
    tokens: Vec<Token>,
    parsed: Vec<String>,
}

impl View for Parser {
    type V = ParserView;

    closed spec fn view(&self) -> ParserView {
        ParserView { tokens: views(self.tokens@), parsed: texts(self.parsed@) }
    }
}

impl Parser {
    pub fn new(tokens: Vec<Token>) -> (r: Self)
        ensures
            r@.tokens == views(tokens@),
            r@.parsed == Seq::<Seq<char>>::empty(),
    {
        let r = Parser { tokens, parsed: Vec::new() };
        assert(texts(r.parsed@) =~= Seq::<Seq<char>>::empty());
        r
    }

    /// The output so far.
    pub fn parsed(&self) -> (r: &Vec<String>)
        ensures
            texts(r@) == self@.parsed,
    {
        &self.parsed
    }

    /// Folds every token, in order, onto the output.
    pub fn parse_token(&mut self)
        ensures
            final(self)@.tokens == old(self)@.tokens,
            final(self)@.parsed == old(self)@.parsed + fold(old(self)@.tokens),
    {
        let ghost ts = self@.tokens;
        let len = self.tokens.len();
        let mut i: usize = 0;
        assert(old(self)@.parsed + fold_prefix(ts, 0) =~= old(self)@.parsed);
        while i < len
            invariant
                len == self.tokens@.len(),
                self.tokens == old(self).tokens,
                ts == old(self)@.tokens,
                i <= len,
                self@.parsed == old(self)@.parsed + fold_prefix(ts, i as int),
            decreases len - i,
        {
            let ghost before = self@.parsed;
            let kind = self.tokens[i].kind;
            proof {
                assert(ts[i as int] == self.tokens@[i as int]@);
            }
            match kind {
                TokenKind::Plus => {
                    self.handle_plus(i);
                },
                TokenKind::True | TokenKind::False | TokenKind::Nil => {
                    let text = self.tokens[i].lexeme.clone();
                    self.parsed.push(text);
                },
                TokenKind::Number | TokenKind::Str => {
                    let text = self.tokens[i].literal.clone();
                    self.parsed.push(text);
                },
                _ => {},
            }
            proof {
                assert(self@.parsed =~= before + fold_at(ts, i as int));
                assert(fold_prefix(ts, i + 1) == fold_prefix(ts, i as int) + fold_at(ts, i as int));
                assert(self@.parsed =~= old(self)@.parsed + fold_prefix(ts, i + 1));
            }
            i += 1;
        }
    }

    /// A `+` at `i` becomes an addition of its neighbours when one of them is a number.
    fn handle_plus(&mut self, i: usize)
        requires
            i < old(self)@.tokens.len(),
            old(self)@.tokens[i as int].kind == TokenKind::Plus,
        ensures
            final(self).tokens == old(self).tokens,
            final(self)@.parsed == old(self)@.parsed + fold_at(old(self)@.tokens, i as int),
    {
        let ghost ts = self@.tokens;
        let len = self.tokens.len();
        let left_is_number = i > 0 && matches!(self.tokens[i - 1].kind, TokenKind::Number);
        let right_is_number = i + 1 < len && matches!(self.tokens[i + 1].kind, TokenKind::Number);
        proof {
            if i > 0 {
                assert(ts[i - 1] == self.tokens@[i - 1]@);
            }
            if i + 1 < len {
                assert(ts[i + 1] == self.tokens@[i + 1]@);
            }
        }
        if left_is_number || right_is_number {
            let left = if i > 0 {
                self.tokens[i - 1].literal.clone()
            } else {
                String::new()
            };
            let right = if i + 1 < len {
                self.tokens[i + 1].literal.clone()
            } else {
                String::new()
            };
            self.process_plus_with_numbers(&left, &right);
        } else {
            assert(self@.parsed =~= old(self)@.parsed + fold_at(ts, i as int));
        }
    }

    fn process_plus_with_numbers(&mut self, left: &String, right: &String)
        ensures
            final(self).tokens == old(self).tokens,
            final(self)@.parsed == old(self)@.parsed.push(plus_text(left@, right@)),
    {
        let mut text = String::new();
        push_char(&mut text, '(');
        push_char(&mut text, '+');
        push_char(&mut text, ' ');
        push_char(&mut text, ' ');
        push_string(&mut text, left);
        push_char(&mut text, ' ');
        push_string(&mut text, right);
        push_char(&mut text, ')');
        assert(text@ =~= plus_text(left@, right@));
        self.parsed.push(text);
        assert(texts(self.parsed@) =~= old(self)@.parsed.push(plus_text(left@, right@)));
    }
}

} // verus!
