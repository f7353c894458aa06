use vstd::prelude::*;

use crate::text::push_char;
use crate::token::{Token, TokenModel};

verus! {

/// The largest number literal the tokenizer accepts.
pub const MAX_NUMBER: u32 = 32767;

/// The byte at `pos`, or 0 past the end.
pub open spec fn byte_at(input: Seq<u8>, pos: int) -> u8 {
    if 0 <= pos < input.len() {
        input[pos]
    } else {
        0
    }
}

pub open spec fn is_digit(b: u8) -> bool {
    48 <= b <= 57
}

/// `_ . $ :` or an ASCII letter.
pub open spec fn is_ident_start(b: u8) -> bool {
    b == 95 || b == 46 || b == 36 || b == 58 || (65 <= b <= 90) || (97 <= b <= 122)
}

pub open spec fn is_ident_char(b: u8) -> bool {
    is_ident_start(b) || is_digit(b)
}

/// Where a comment that runs on from `pos` stops: at a newline or the end.
pub open spec fn comment_end(input: Seq<u8>, pos: int) -> int
    decreases input.len() - pos,
{
    if pos < 0 || pos >= input.len() || input[pos] == 10 {
        pos
    } else {
        comment_end(input, pos + 1)
    }
}

/// Where a run of bytes satisfying `is_ident_char` that starts at `pos` stops.
pub open spec fn ident_end(input: Seq<u8>, pos: int) -> int
    decreases input.len() - pos,
{
    if 0 <= pos < input.len() && is_ident_char(input[pos]) {
        ident_end(input, pos + 1)
    } else {
        pos
    }
}

/// Where a run of decimal digits that starts at `pos` stops.
pub open spec fn digits_end(input: Seq<u8>, pos: int) -> int
    decreases input.len() - pos,
{
    if 0 <= pos < input.len() && is_digit(input[pos]) {
        digits_end(input, pos + 1)
    } else {
        pos
    }
}

/// The value of the decimal digits in `input[start..end]`.
pub open spec fn digits_value(input: Seq<u8>, start: int, end: int) -> nat
    decreases end - start,
{
    if end <= start {
        0
    } else {
        digits_value(input, start, end - 1) * 10 + (input[end - 1] - 48) as nat
    }
}

/// Bytes read as characters, one for one.
pub open spec fn chars_of(b: Seq<u8>) -> Seq<char> {
    b.map_values(|x: u8| x as char)
}

/// The token that starts at or after `pos`, and the position after it.
/// Spaces, tabs and carriage returns are skipped, and a `/` skips the rest of
/// its line.
pub open spec fn next_token(input: Seq<u8>, pos: int) -> (TokenModel, int)
    decreases input.len() - pos,
{
    let b = byte_at(input, pos);
    if pos < 0 || pos >= input.len() {
        (TokenModel::EOF, pos)
    } else if b == 47 {
        let q = comment_end(input, pos + 1);
        proof {
            lemma_comment_end(input, pos + 1);
        }
        next_token(input, q)
    } else if b == 32 || b == 9 || b == 13 {
        next_token(input, pos + 1)
    } else if b == 10 {
        (TokenModel::NewLine, pos + 1)
    } else if b == 64 {
        (TokenModel::At, pos + 1)
    } else if b == 45 {
        (TokenModel::Minus, pos + 1)
    } else if b == 43 {
        (TokenModel::Plus, pos + 1)
    } else if b == 38 {
        (TokenModel::And, pos + 1)
    } else if b == 124 {
        (TokenModel::Or, pos + 1)
    } else if b == 33 {
        (TokenModel::Not, pos + 1)
    } else if b == 61 {
        (TokenModel::Equal, pos + 1)
    } else if b == 59 {
        (TokenModel::Semi, pos + 1)
    } else if b == 40 {
        (TokenModel::LParen, pos + 1)
    } else if b == 41 {
        (TokenModel::RParen, pos + 1)
    } else if is_digit(b) {
        let e = digits_end(input, pos);
        let v = digits_value(input, pos, e);
        if v > MAX_NUMBER {
            (TokenModel::Error, e)
        } else {
            (TokenModel::Number(v as u16), e)
        }
    } else if is_ident_start(b) {
        let e = ident_end(input, pos);
        (TokenModel::ID(chars_of(input.subrange(pos, e))), e)
    } else {
        (TokenModel::Error, pos + 1)
    }
}

pub proof fn lemma_comment_end(input: Seq<u8>, pos: int)
    requires
        0 <= pos <= input.len(),
    ensures
        pos <= comment_end(input, pos) <= input.len(),
    decreases input.len() - pos,
{
    if pos < input.len() && input[pos] != 10 {
        lemma_comment_end(input, pos + 1);
    }
}

pub proof fn lemma_ident_end(input: Seq<u8>, pos: int)
    requires
        0 <= pos <= input.len(),
    ensures
        pos <= ident_end(input, pos) <= input.len(),
    decreases input.len() - pos,
{
    if pos < input.len() && is_ident_char(input[pos]) {
        lemma_ident_end(input, pos + 1);
    }
}

pub proof fn lemma_digits_end(input: Seq<u8>, pos: int)
    requires
        0 <= pos <= input.len(),
    ensures
        pos <= digits_end(input, pos) <= input.len(),
    decreases input.len() - pos,
{
    if pos < input.len() && is_digit(input[pos]) {
        lemma_digits_end(input, pos + 1);
    }
}

/// A token other than the end of input moves forward; the position stays in
/// the input.
pub proof fn lemma_next_token(input: Seq<u8>, pos: int)
    requires
        0 <= pos <= input.len(),
    ensures
        pos <= next_token(input, pos).1 <= input.len(),
        next_token(input, pos).0 != TokenModel::EOF ==> next_token(input, pos).1 > pos,
    decreases input.len() - pos,
{
    let b = byte_at(input, pos);
    if pos >= input.len() {
    } else if b == 47 {
        lemma_comment_end(input, pos + 1);
        lemma_next_token(input, comment_end(input, pos + 1));
    } else if b == 32 || b == 9 || b == 13 {
        lemma_next_token(input, pos + 1);
    } else if is_digit(b) {
        lemma_digits_end(input, pos + 1);
    } else if is_ident_start(b) {
        lemma_ident_end(input, pos + 1);
    }
}

/// A cursor over source bytes with one byte of lookahead.
pub struct Lexer {
    input: Vec<u8>,
    pos: usize,
}

impl Lexer {
    /// The source being read.
    pub closed spec fn input(&self) -> Seq<u8> {
        self.input@
    }

    /// How far the cursor has come.
    pub closed spec fn pos(&self) -> int {
        self.pos as int
    }

    /// The cursor stands inside the source or at its end.
    pub open spec fn wf(&self) -> bool {
        0 <= self.pos() <= self.input().len()
    }

    /// A cursor at the start of `input`.
    pub fn new(input: Vec<u8>) -> (r: Lexer)
        ensures
            r.wf(),
            r.input() == input@,
            r.pos() == 0,
    {
        Lexer { input, pos: 0 }
    }

    /// The byte under the cursor, 0 at the end.
    fn current(&self) -> (r: u8)
        requires
            self.wf(),
        ensures
            r == byte_at(self.input@, self.pos as int),
    {
        if self.pos < self.input.len() {
            self.input[self.pos]
        } else {
            0
        }
    }

    /// Moves the cursor one byte on, unless it is at the end.
    fn consume(&mut self)
        requires
            old(self).wf(),
        ensures
            final(self).wf(),
            final(self).input == old(self).input,
            final(self).pos == if old(self).pos < old(self).input@.len() {
                old(self).pos + 1
            } else {
                old(self).pos as int
            },
    {
        if self.pos < self.input.len() {
            self.pos = self.pos + 1;
        }
    }

    /// The next token; the end of input is returned again on every later call.
    pub fn lex_token(&mut self) -> (r: Token)
        requires
            old(self).wf(),
        ensures
            final(self).wf(),
            final(self).input() == old(self).input(),
            (r@, final(self).pos()) == next_token(old(self).input(), old(self).pos()),
    {
        self.lex_token_internal()
    }

    fn lex_token_internal(&mut self) -> (r: Token)
        requires
            old(self).wf(),
        ensures
            final(self).wf(),
            final(self).input == old(self).input,
            (r@, final(self).pos as int) == next_token(old(self).input@, old(self).pos as int),
    {
        loop
            invariant
                self.wf(),
                self.input == old(self).input,
                next_token(self.input@, self.pos as int) == next_token(
                    old(self).input@,
                    old(self).pos as int,
                ),
            decreases self.input@.len() - self.pos,
        {
            if self.pos >= self.input.len() {
                return Token::EOF;
            }
            let c = self.current();
            if c == 47 {
                let ghost start = self.pos as int + 1;
                self.consume();
                while self.pos < self.input.len() && self.current() != 10
                    invariant
                        self.wf(),
                        self.input == old(self).input,
                        start <= self.pos,
                        comment_end(self.input@, self.pos as int) == comment_end(
                            self.input@,
                            start,
                        ),
                    decreases self.input@.len() - self.pos,
                {
                    self.consume();
                }
                continue;
            }
            if c == 32 || c == 9 || c == 13 {
                self.consume();
                continue;
            }
            let ghost p = self.pos as int;
            self.consume();
            if c == 10 {
                return Token::NewLine;
            } else if c == 64 {
                return Token::At;
            } else if c == 45 {
                return Token::Minus;
            } else if c == 43 {
                return Token::Plus;
            } else if c == 38 {
                return Token::And;
            } else if c == 124 {
                return Token::Or;
            } else if c == 33 {
                return Token::Not;
            } else if c == 61 {
                return Token::Equal;
            } else if c == 59 {
                return Token::Semi;
            } else if c == 40 {
                return Token::LParen;
            } else if c == 41 {
                return Token::RParen;
            } else if 48 <= c && c <= 57 {
                let ghost start = self.pos as int - 1;
                let mut value: u32 = (c - 48) as u32;
                let mut over = false;
                assert(digits_value(self.input@, start, start) == 0);
                while 48 <= self.current() && self.current() <= 57
                    invariant
                        self.wf(),
                        self.input == old(self).input,
                        0 <= start < self.pos,
                        digits_end(self.input@, self.pos as int) == digits_end(self.input@, start),
                        over ==> digits_value(self.input@, start, self.pos as int) > MAX_NUMBER,
                        !over ==> value == digits_value(self.input@, start, self.pos as int),
                        !over ==> value <= MAX_NUMBER,
                    decreases self.input@.len() - self.pos,
                {
                    let d = self.current() - 48;
                    self.consume();
                    if !over {
                        value = value * 10 + d as u32;
                        if value > MAX_NUMBER {
                            over = true;
                        }
                    }
                }
                if over {
                    return Token::Error;
                }
                return Token::Number(value as u16);
            } else if c == 95 || c == 46 || c == 36 || c == 58 || (65 <= c && c <= 90) || (97 <= c
                && c <= 122) {
                let ghost start = self.pos as int - 1;
                assert(ident_end(self.input@, start) == ident_end(self.input@, start + 1));
                proof {
                    lemma_ident_end(self.input@, start);
                }
                assert(next_token(self.input@, p) == (
                    TokenModel::ID(chars_of(self.input@.subrange(p, ident_end(self.input@, p)))),
                    ident_end(self.input@, p),
                ));
                let mut s = String::new();
                push_char(&mut s, c as char);
                assert(s@ =~= chars_of(self.input@.subrange(start, self.pos as int)));
                loop
                    invariant
                        self.wf(),
                        self.input == old(self).input,
                        0 <= start < self.pos,
                        ident_end(self.input@, self.pos as int) == ident_end(self.input@, start),
                        start == p,
                        next_token(self.input@, p) == (
                            TokenModel::ID(chars_of(self.input@.subrange(p, ident_end(self.input@, p)))),
                            ident_end(self.input@, p),
                        ),
                        next_token(old(self).input@, p) == next_token(
                            old(self).input@,
                            old(self).pos as int,
                        ),
                        s@ == chars_of(self.input@.subrange(start, self.pos as int)),
                    decreases self.input@.len() - self.pos,
                {
                    let b = self.current();
                    if b == 95 || b == 46 || b == 36 || b == 58 || (65 <= b && b <= 90) || (97 <= b
                        && b <= 122) || (48 <= b && b <= 57) {
                        let ghost here = self.pos as int;
                        self.consume();
                        push_char(&mut s, b as char);
                        assert(s@ =~= chars_of(self.input@.subrange(start, self.pos as int)));
                    } else {
                        assert(ident_end(self.input@, self.pos as int) == self.pos as int);
                        assert(ident_end(self.input@, p) == self.pos as int);
                        let r = Token::ID(s);
                        assert(r@ == next_token(self.input@, p).0);
                        return r;
                    }
                }
            } else {
                return Token::Error;
            }
        }
    }
}

} // verus!
