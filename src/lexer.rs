use vstd::prelude::*;
use crate::token::{LexError, Token};

verus! {

/// ASCII whitespace: space, tab, line feed, form feed and carriage return.
pub open spec fn is_space(c: char) -> bool {
    c == ' ' || c == '\t' || c == '\n' || c == '\x0C' || c == '\r'
}

pub open spec fn is_digit(c: char) -> bool {
    '0' <= c && c <= '9'
}

pub open spec fn digit_value(c: char) -> int {
    (c as int) - ('0' as int)
}

/// The first position at or after `p` that holds no whitespace.
pub open spec fn skip_spaces(s: Seq<char>, p: int) -> int
    decreases s.len() - p,
{
    if 0 <= p < s.len() && is_space(s[p]) {
        skip_spaces(s, p + 1)
    } else {
        p
    }
}

/// The end of the run of digits that starts at `p`.
pub open spec fn digits_end(s: Seq<char>, p: int) -> int
    decreases s.len() - p,
{
    if 0 <= p < s.len() && is_digit(s[p]) {
        digits_end(s, p + 1)
    } else {
        p
    }
}

/// The decimal number written by the characters in `[start, end)`.
pub open spec fn decimal_value(s: Seq<char>, start: int, end: int) -> int
    decreases end - start,
{
    if end <= start {
        0
    } else {
        decimal_value(s, start, end - 1) * 10 + digit_value(s[end - 1])
    }
}

/// The token that a lexer at position `p` reads next, with the position where
/// it starts and the position just after it.
pub open spec fn lex_at(s: Seq<char>, p: int) -> Result<(Token, int, int), LexError> {
    let q = skip_spaces(s, p);
    if q >= s.len() {
        Ok((Token::EndOfInput, q, q))
    } else {
        let c = s[q];
        if is_digit(c) {
            let e = digits_end(s, q);
            let v = decimal_value(s, q, e);
            if v > i64::MAX {
                Err(LexError::Overflow { position: q as usize })
            } else {
                Ok((Token::Integer(v as i64), q, e))
            }
        } else if c == '+' {
            Ok((Token::Plus, q, q + 1))
        } else if c == '-' {
            Ok((Token::Minus, q, q + 1))
        } else if c == '*' {
            Ok((Token::Star, q, q + 1))
        } else if c == '/' {
            Ok((Token::Slash, q, q + 1))
        } else if c == '(' {
            Ok((Token::LParen, q, q + 1))
        } else if c == ')' {
            Ok((Token::RParen, q, q + 1))
        } else {
            Err(LexError::UnexpectedCharacter { ch: c, position: q as usize })
        }
    }
}

pub proof fn lemma_skip_spaces_bounds(s: Seq<char>, p: int)
    requires
        0 <= p <= s.len(),
    ensures
        p <= skip_spaces(s, p) <= s.len(),
        skip_spaces(s, p) < s.len() ==> !is_space(s[skip_spaces(s, p)]),
        forall|i: int| p <= i < skip_spaces(s, p) ==> is_space(s[i]),
    decreases s.len() - p,
{
    if p < s.len() && is_space(s[p]) {
        lemma_skip_spaces_bounds(s, p + 1);
    }
}

pub proof fn lemma_digits_end_bounds(s: Seq<char>, p: int)
    requires
        0 <= p <= s.len(),
    ensures
        p <= digits_end(s, p) <= s.len(),
        digits_end(s, p) < s.len() ==> !is_digit(s[digits_end(s, p)]),
        forall|i: int| p <= i < digits_end(s, p) ==> is_digit(s[i]),
    decreases s.len() - p,
{
    if p < s.len() && is_digit(s[p]) {
        lemma_digits_end_bounds(s, p + 1);
    }
}

/// Appending a digit never makes a number smaller.
pub proof fn lemma_decimal_value_grows(s: Seq<char>, start: int, e1: int, e2: int)
    requires
        start <= e1 <= e2 <= s.len(),
        0 <= start,
        forall|i: int| start <= i < e2 ==> is_digit(s[i]),
    ensures
        0 <= decimal_value(s, start, e1) <= decimal_value(s, start, e2),
    decreases e2 - start,
{
    if e2 > e1 {
        lemma_decimal_value_grows(s, start, e1, e2 - 1);
    } else if e1 > start {
        lemma_decimal_value_grows(s, start, e1 - 1, e1 - 1);
    }
}

/// Reading tokens from the start of a token gives the same token as reading
/// from anywhere in the whitespace before it.
pub proof fn lemma_lex_at_start(s: Seq<char>, p: int)
    requires
        0 <= p <= s.len(),
        lex_at(s, p) is Ok,
    ensures
        lex_at(s, lex_at(s, p)->Ok_0.1) == lex_at(s, p),
        p <= lex_at(s, p)->Ok_0.1 <= lex_at(s, p)->Ok_0.2 <= s.len(),
        lex_at(s, p)->Ok_0.0 != Token::EndOfInput ==> lex_at(s, p)->Ok_0.1 < lex_at(s, p)->Ok_0.2,
{
    let q = skip_spaces(s, p);
    lemma_skip_spaces_bounds(s, p);
    lemma_skip_spaces_bounds(s, q);
    if q < s.len() && is_digit(s[q]) {
        lemma_digits_end_bounds(s, q);
    }
}

fn is_space_char(c: char) -> (r: bool)
    ensures
        r == is_space(c),
{
    c == ' ' || c == '\t' || c == '\n' || c == '\x0C' || c == '\r'
}

fn is_digit_char(c: char) -> (r: bool)
    ensures
        r == is_digit(c),
{
    '0' <= c && c <= '9'
}

/// A cursor over one line of input that hands out tokens on demand.
pub struct Lexer {
    text: Vec<char>,
    pos: usize,
}

impl Lexer {
    /// The characters of the input.
    pub closed spec fn text(&self) -> Seq<char> {
        self.text@
    }

    /// The number of characters already consumed.
    pub closed spec fn pos(&self) -> int {
        self.pos as int
    }

    /// The cursor stands within the input or at its end.
    pub open spec fn wf(&self) -> bool {
        self.pos() <= self.text().len()
    }

    /// A lexer at the start of `text`.
    pub fn new(text: &str) -> (l: Lexer)
        ensures
            l.wf(),
            l.text() == text@,
            l.pos() == 0,
    {
        let mut chars: Vec<char> = Vec::new();
        let n = text.unicode_len();
        let mut i: usize = 0;
        while i < n
            invariant
                n == text@.len(),
                i <= n,
                chars@ == text@.subrange(0, i as int),
            decreases n - i,
        {
            chars.push(text.get_char(i));
            i = i + 1;
        }
        assert(chars@ == text@);
        Lexer { text: chars, pos: 0 }
    }

    /// The number of characters already consumed.
    pub fn position(&self) -> (r: usize)
        ensures
            r == self.pos(),
    {
        self.pos
    }

    /// The character at the cursor, if any, without consuming it.
    pub fn peek_char(&self) -> (r: Option<char>)
        requires
            self.wf(),
        ensures
            self.pos() < self.text().len() ==> r == Some(self.text()[self.pos()]),
            self.pos() >= self.text().len() ==> r is None,
    {
        if self.pos < self.text.len() {
            Some(self.text[self.pos])
        } else {
            None
        }
    }

    /// Moves the cursor one character forward; at the end it stays put.
    pub fn advance(&mut self)
        requires
            old(self).wf(),
        ensures
            final(self).wf(),
            final(self).text() == old(self).text(),
            old(self).pos() < old(self).text().len() ==> final(self).pos() == old(self).pos() + 1,
            old(self).pos() >= old(self).text().len() ==> final(self).pos() == old(self).pos(),
    {
        if self.pos < self.text.len() {
            self.pos = self.pos + 1;
        }
    }

    /// Moves the cursor past any whitespace.
    pub fn skip_whitespace(&mut self)
        requires
            old(self).wf(),
        ensures
            final(self).wf(),
            final(self).text() == old(self).text(),
            final(self).pos() == skip_spaces(old(self).text(), old(self).pos()),
    {
        while self.pos < self.text.len() && is_space_char(self.text[self.pos])
            invariant
                self.wf(),
                self.text() == old(self).text(),
                skip_spaces(self.text(), self.pos()) == skip_spaces(old(self).text(), old(self).pos()),
            decreases self.text().len() - self.pos(),
        {
            self.advance();
        }
    }

    /// Reads the run of digits at the cursor as a non-negative number.
    pub fn integer(&mut self) -> (r: Result<i64, LexError>)
        requires
            old(self).wf(),
            old(self).pos() < old(self).text().len(),
            is_digit(old(self).text()[old(self).pos()]),
        ensures
            final(self).wf(),
            final(self).text() == old(self).text(),
            ({
                let s = old(self).text();
                let q = old(self).pos();
                let e = digits_end(s, q);
                let v = decimal_value(s, q, e);
                if v > i64::MAX {
                    r == Err::<i64, LexError>(LexError::Overflow { position: q as usize })
                } else {
                    r == Ok::<i64, LexError>(v as i64) && final(self).pos() == e
                }
            }),
    {
        let ghost s = self.text();
        let start = self.pos;
        proof {
            lemma_digits_end_bounds(s, start as int);
        }
        let mut value: i64 = 0;
        while self.pos < self.text.len() && is_digit_char(self.text[self.pos])
            invariant
                self.wf(),
                self.text() == s,
                s == old(self).text(),
                start == old(self).pos(),
                start <= self.pos() <= digits_end(s, start as int),
                digits_end(s, start as int) <= s.len(),
                forall|i: int| start <= i < digits_end(s, start as int) ==> is_digit(s[i]),
                digits_end(s, start as int) < s.len() ==> !is_digit(s[digits_end(s, start as int)]),
                value as int == decimal_value(s, start as int, self.pos()),
                0 <= value,
            decreases s.len() - self.pos(),
        {
            let c = self.text[self.pos];
            let d = (c as u32 - '0' as u32) as i64;
            let next = match value.checked_mul(10) {
                Some(m) => m.checked_add(d),
                None => None,
            };
            proof {
                assert(decimal_value(s, start as int, self.pos() + 1) == value * 10 + digit_value(
                    s[self.pos()],
                ));
                lemma_decimal_value_grows(
                    s,
                    start as int,
                    self.pos() + 1,
                    digits_end(s, start as int),
                );
            }
            match next {
                Some(n) => {
                    value = n;
                    self.advance();
                },
                None => {
                    return Err(LexError::Overflow { position: start });
                },
            }
        }
        assert(self.pos() == digits_end(s, start as int));
        Ok(value)
    }

    /// Reads the next token, skipping the whitespace before it. At the end of
    /// the input it returns `EndOfInput`, again on every later call.
    pub fn get_next_token(&mut self) -> (r: Result<Token, LexError>)
        requires
            old(self).wf(),
        ensures
            final(self).wf(),
            final(self).text() == old(self).text(),
            match lex_at(old(self).text(), old(self).pos()) {
                Ok((t, _, e)) => r == Ok::<Token, LexError>(t) && final(self).pos() == e,
                Err(err) => r == Err::<Token, LexError>(err),
            },
    {
        self.skip_whitespace();
        proof {
            lemma_skip_spaces_bounds(old(self).text(), old(self).pos());
        }
        let start = self.pos;
        match self.peek_char() {
            None => Ok(Token::EndOfInput),
            Some(c) => {
                if is_digit_char(c) {
                    let v = self.integer()?;
                    Ok(Token::Integer(v))
                } else {
                    let t = if c == '+' {
                        Token::Plus
                    } else if c == '-' {
                        Token::Minus
                    } else if c == '*' {
                        Token::Star
                    } else if c == '/' {
                        Token::Slash
                    } else if c == '(' {
                        Token::LParen
                    } else if c == ')' {
                        Token::RParen
                    } else {
                        return Err(LexError::UnexpectedCharacter { ch: c, position: start });
                    };
                    self.advance();
                    Ok(t)
                }
            },
        }
    }
}

} // verus!
