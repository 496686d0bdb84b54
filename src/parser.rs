use vstd::prelude::*;
use crate::lexer::{lex_at, lemma_lex_at_start, Lexer};
use crate::token::{ArithError, Error, LexError, ParseError, Token, TokenKind};

verus! {

/// The token that starts at `q`.
pub open spec fn tok(s: Seq<char>, q: int) -> Token {
    lex_at(s, q)->Ok_0.0
}

/// The position just after the token that starts at `q`.
pub open spec fn tok_end(s: Seq<char>, q: int) -> int {
    lex_at(s, q)->Ok_0.2
}

/// Consumes the token that starts at `q` and reads the next one: the position
/// where that one starts, or the lexical error met on the way.
pub open spec fn step(s: Seq<char>, q: int) -> Result<int, Error> {
    match lex_at(s, tok_end(s, q)) {
        Ok((_, q1, _)) => Ok(q1),
        Err(e) => Err(Error::Lex(e)),
    }
}

/// Holds when parsing that began at `q` has moved on to `q1`, within the input.
/// Every rule that recurses has consumed a token first, so this always holds
/// where it is asked (the executable parser proves as much); it only lets the
/// definitions below show that they terminate.
pub open spec fn moved(s: Seq<char>, q: int, q1: int) -> bool {
    q < q1 <= s.len()
}

/// The error reported where parsing would not move on; never produced.
pub open spec fn stalled(q: int) -> Error {
    Error::Parse(ParseError::TrailingInput { position: q as usize })
}

pub open spec fn in_i64(v: int) -> bool {
    i64::MIN <= v <= i64::MAX
}

/// Integer division that rounds toward zero.
pub open spec fn div_toward_zero(a: int, b: int) -> int {
    let m = if a < 0 { -a } else { a };
    let n = if b < 0 { -b } else { b };
    if (a < 0) == (b < 0) { m / n } else { -(m / n) }
}

/// The value of `a op b`, where `op` is the operator token at `pos`.
pub open spec fn binary(op: Token, a: i64, b: i64, pos: int) -> Result<i64, Error> {
    let overflow = Error::Arith(ArithError::Overflow { position: pos as usize });
    match op {
        Token::Plus => if in_i64(a + b) { Ok((a + b) as i64) } else { Err(overflow) },
        Token::Minus => if in_i64(a - b) { Ok((a - b) as i64) } else { Err(overflow) },
        Token::Star => if in_i64(a * b) { Ok((a * b) as i64) } else { Err(overflow) },
        _ => if b == 0 {
            Err(Error::Arith(ArithError::DivisionByZero { position: pos as usize }))
        } else if in_i64(div_toward_zero(a as int, b as int)) {
            Ok(div_toward_zero(a as int, b as int) as i64)
        } else {
            Err(overflow)
        },
    }
}

/// `factor := INTEGER | '-' factor | '(' expr ')'`, read from the token at `q`:
/// its value and where the token after it starts.
pub open spec fn factor(s: Seq<char>, q: int) -> Result<(i64, int), Error>
    decreases s.len() - q, 0nat,
{
    match tok(s, q) {
        Token::Integer(n) => match step(s, q) {
            Ok(q1) => Ok((n, q1)),
            Err(e) => Err(e),
        },
        Token::Minus => match step(s, q) {
            Ok(q1) => if moved(s, q, q1) {
                match factor(s, q1) {
                    Ok((v, q2)) => if v == i64::MIN {
                        Err(Error::Arith(ArithError::Overflow { position: q as usize }))
                    } else {
                        Ok((-v as i64, q2))
                    },
                    Err(e) => Err(e),
                }
            } else {
                Err(stalled(q))
            },
            Err(e) => Err(e),
        },
        Token::LParen => match step(s, q) {
            Ok(q1) => if moved(s, q, q1) {
                match expr(s, q1) {
                    Ok((v, q2)) => match tok(s, q2) {
                        Token::RParen => match step(s, q2) {
                            Ok(q3) => Ok((v, q3)),
                            Err(e) => Err(e),
                        },
                        Token::EndOfInput => Err(
                            Error::Parse(ParseError::UnclosedParen { position: q as usize }),
                        ),
                        t => Err(
                            Error::Parse(
                                ParseError::UnexpectedToken {
                                    expected: TokenKind::RParen,
                                    found: t,
                                    position: q2 as usize,
                                },
                            ),
                        ),
                    },
                    Err(e) => Err(e),
                }
            } else {
                Err(stalled(q))
            },
            Err(e) => Err(e),
        },
        t => Err(
            Error::Parse(
                ParseError::UnexpectedToken {
                    expected: TokenKind::Integer,
                    found: t,
                    position: q as usize,
                },
            ),
        ),
    }
}

/// `(('*' | '/') factor)*` from the token at `q`, folded left onto `acc`.
pub open spec fn term_rest(s: Seq<char>, acc: i64, q: int) -> Result<(i64, int), Error>
    decreases s.len() - q, 1nat,
{
    let op = tok(s, q);
    if op == Token::Star || op == Token::Slash {
        match step(s, q) {
            Ok(q1) => if moved(s, q, q1) {
                match factor(s, q1) {
                    Ok((v, q2)) => if moved(s, q, q2) {
                        match binary(op, acc, v, q) {
                            Ok(a) => term_rest(s, a, q2),
                            Err(e) => Err(e),
                        }
                    } else {
                        Err(stalled(q))
                    },
                    Err(e) => Err(e),
                }
            } else {
                Err(stalled(q))
            },
            Err(e) => Err(e),
        }
    } else {
        Ok((acc, q))
    }
}

/// `term := factor (('*' | '/') factor)*` from the token at `q`.
pub open spec fn term(s: Seq<char>, q: int) -> Result<(i64, int), Error>
    decreases s.len() - q, 2nat,
{
    match factor(s, q) {
        Ok((v, q1)) => if q <= q1 <= s.len() {
            term_rest(s, v, q1)
        } else {
            Err(stalled(q))
        },
        Err(e) => Err(e),
    }
}

/// `(('+' | '-') term)*` from the token at `q`, folded left onto `acc`.
pub open spec fn expr_rest(s: Seq<char>, acc: i64, q: int) -> Result<(i64, int), Error>
    decreases s.len() - q, 3nat,
{
    let op = tok(s, q);
    if op == Token::Plus || op == Token::Minus {
        match step(s, q) {
            Ok(q1) => if moved(s, q, q1) {
                match term(s, q1) {
                    Ok((v, q2)) => if moved(s, q, q2) {
                        match binary(op, acc, v, q) {
                            Ok(a) => expr_rest(s, a, q2),
                            Err(e) => Err(e),
                        }
                    } else {
                        Err(stalled(q))
                    },
                    Err(e) => Err(e),
                }
            } else {
                Err(stalled(q))
            },
            Err(e) => Err(e),
        }
    } else {
        Ok((acc, q))
    }
}

/// `expr := term (('+' | '-') term)*` from the token at `q`.
pub open spec fn expr(s: Seq<char>, q: int) -> Result<(i64, int), Error>
    decreases s.len() - q, 4nat,
{
    match term(s, q) {
        Ok((v, q1)) => if q <= q1 <= s.len() {
            expr_rest(s, v, q1)
        } else {
            Err(stalled(q))
        },
        Err(e) => Err(e),
    }
}

/// The result of evaluating the whole of `s`.
pub open spec fn evaluation(s: Seq<char>) -> Result<i64, Error> {
    match lex_at(s, 0) {
        Err(e) => Err(Error::Lex(e)),
        Ok((_, q0, _)) => match expr(s, q0) {
            Ok((v, q1)) => if tok(s, q1) == Token::EndOfInput {
                Ok(v)
            } else {
                Err(Error::Parse(ParseError::TrailingInput { position: q1 as usize }))
            },
            Err(e) => Err(e),
        },
    }
}

/// Computes `a op b` for the operator token `op` found at `pos`.
fn apply_binary(op: Token, a: i64, b: i64, pos: usize) -> (r: Result<i64, Error>)
    ensures
        r == binary(op, a, b, pos as int),
{
    let overflow = Error::Arith(ArithError::Overflow { position: pos });
    let v = match op {
        Token::Plus => a.checked_add(b),
        Token::Minus => a.checked_sub(b),
        Token::Star => a.checked_mul(b),
        _ => {
            if b == 0 {
                return Err(Error::Arith(ArithError::DivisionByZero { position: pos }));
            }
            a.checked_div(b)
        },
    };
    match v {
        Some(x) => Ok(x),
        None => Err(overflow),
    }
}

/// A recursive-descent evaluator over one line of input, holding the lexer
/// and one token of lookahead.
pub struct Interpreter {
    lexer: Lexer,
    current: Token,
    current_pos: usize,
}

impl Interpreter {
    /// The characters of the input.
    pub closed spec fn text(&self) -> Seq<char> {
        self.lexer.text()
    }

    /// Where the lookahead token starts.
    pub closed spec fn pos(&self) -> int {
        self.current_pos as int
    }

    /// The lookahead is the token that the input holds at its position, and
    /// the lexer stands just after it.
    pub closed spec fn wf(&self) -> bool {
        &&& self.lexer.wf()
        &&& self.current_pos <= self.lexer.text().len()
        &&& lex_at(self.lexer.text(), self.current_pos as int) == Ok::<(Token, int, int), LexError>(
            (self.current, self.current_pos as int, self.lexer.pos()),
        )
    }

    /// An evaluator that takes over `lexer` and reads its first token.
    pub fn new(lexer: Lexer) -> (r: Result<Interpreter, Error>)
        requires
            lexer.wf(),
        ensures
            match lex_at(lexer.text(), lexer.pos()) {
                Ok((_, q, _)) => r is Ok && r->Ok_0.wf() && r->Ok_0.text() == lexer.text()
                    && r->Ok_0.pos() == q,
                Err(e) => r == Err::<Interpreter, Error>(Error::Lex(e)),
            },
    {
        let ghost s = lexer.text();
        let ghost p = lexer.pos();
        let mut lexer = lexer;
        lexer.skip_whitespace();
        let start = lexer.position();
        proof {
            crate::lexer::lemma_skip_spaces_bounds(s, p);
        }
        match lexer.get_next_token() {
            Ok(t) => {
                proof {
                    lemma_lex_at_start(s, p);
                }
                Ok(Interpreter { lexer, current: t, current_pos: start })
            },
            Err(e) => Err(Error::Lex(e)),
        }
    }

    /// The lookahead token.
    pub fn current(&self) -> (t: Token)
        requires
            self.wf(),
        ensures
            t == tok(self.text(), self.pos()),
    {
        self.current
    }

    /// Where the lookahead token starts.
    pub fn position(&self) -> (r: usize)
        ensures
            r == self.pos(),
    {
        self.current_pos
    }

    /// Consumes the lookahead and reads the next token.
    fn advance(&mut self) -> (r: Result<(), Error>)
        requires
            old(self).wf(),
        ensures
            final(self).text() == old(self).text(),
            match step(old(self).text(), old(self).pos()) {
                Ok(q1) => r is Ok && final(self).wf() && final(self).pos() == q1,
                Err(e) => r == Err::<(), Error>(e),
            },
            r is Ok ==> old(self).pos() <= final(self).pos(),
            r is Ok && tok(old(self).text(), old(self).pos()) != Token::EndOfInput ==> old(self).pos()
                < final(self).pos(),
    {
        let ghost s = self.text();
        let ghost e = self.lexer.pos();
        proof {
            lemma_lex_at_start(s, self.pos());
        }
        self.lexer.skip_whitespace();
        let start = self.lexer.position();
        proof {
            crate::lexer::lemma_skip_spaces_bounds(s, e);
        }
        match self.lexer.get_next_token() {
            Ok(t) => {
                proof {
                    lemma_lex_at_start(s, e);
                }
                self.current = t;
                self.current_pos = start;
                Ok(())
            },
            Err(err) => Err(Error::Lex(err)),
        }
    }

    /// Consumes the lookahead if it is of kind `expected`; otherwise fails
    /// with `UnexpectedToken`.
    pub fn eat(&mut self, expected: TokenKind) -> (r: Result<(), Error>)
        requires
            old(self).wf(),
        ensures
            final(self).text() == old(self).text(),
            tok(old(self).text(), old(self).pos()).kind() == expected ==> match step(
                old(self).text(),
                old(self).pos(),
            ) {
                Ok(q1) => r is Ok && final(self).wf() && final(self).pos() == q1,
                Err(e) => r == Err::<(), Error>(e),
            },
            tok(old(self).text(), old(self).pos()).kind() != expected ==> r == Err::<(), Error>(
                Error::Parse(
                    ParseError::UnexpectedToken {
                        expected,
                        found: tok(old(self).text(), old(self).pos()),
                        position: old(self).pos() as usize,
                    },
                ),
            ),
    {
        if self.current.kind() == expected {
            self.advance()
        } else {
            Err(
                Error::Parse(
                    ParseError::UnexpectedToken {
                        expected,
                        found: self.current,
                        position: self.current_pos,
                    },
                ),
            )
        }
    }

    /// Evaluates a `factor` from the lookahead on.
    pub fn factor(&mut self) -> (r: Result<i64, Error>)
        requires
            old(self).wf(),
        ensures
            final(self).text() == old(self).text(),
            match factor(old(self).text(), old(self).pos()) {
                Ok((v, q1)) => r == Ok::<i64, Error>(v) && final(self).wf() && final(self).pos() == q1,
                Err(e) => r == Err::<i64, Error>(e),
            },
            r is Ok ==> old(self).pos() < final(self).pos() <= final(self).text().len(),
        decreases old(self).text().len() - old(self).pos(), 0nat,
    {
        let ghost s = self.text();
        let ghost q = self.pos();
        match self.current {
            Token::Integer(n) => {
                self.advance()?;
                Ok(n)
            },
            Token::Minus => {
                let minus = self.current_pos;
                self.advance()?;
                let v = self.factor()?;
                if v == i64::MIN {
                    Err(Error::Arith(ArithError::Overflow { position: minus }))
                } else {
                    Ok(-v)
                }
            },
            Token::LParen => {
                let open = self.current_pos;
                self.advance()?;
                let v = self.expr()?;
                match self.current {
                    Token::RParen => {
                        self.advance()?;
                        Ok(v)
                    },
                    Token::EndOfInput => Err(
                        Error::Parse(ParseError::UnclosedParen { position: open }),
                    ),
                    t => Err(
                        Error::Parse(
                            ParseError::UnexpectedToken {
                                expected: TokenKind::RParen,
                                found: t,
                                position: self.current_pos,
                            },
                        ),
                    ),
                }
            },
            t => Err(
                Error::Parse(
                    ParseError::UnexpectedToken {
                        expected: TokenKind::Integer,
                        found: t,
                        position: self.current_pos,
                    },
                ),
            ),
        }
    }

    /// Evaluates a `term` from the lookahead on.
    pub fn term(&mut self) -> (r: Result<i64, Error>)
        requires
            old(self).wf(),
        ensures
            final(self).text() == old(self).text(),
            match term(old(self).text(), old(self).pos()) {
                Ok((v, q1)) => r == Ok::<i64, Error>(v) && final(self).wf() && final(self).pos() == q1,
                Err(e) => r == Err::<i64, Error>(e),
            },
            r is Ok ==> old(self).pos() < final(self).pos() <= final(self).text().len(),
        decreases old(self).text().len() - old(self).pos(), 1nat,
    {
        let ghost s = self.text();
        let ghost q = self.pos();
        let mut acc = self.factor()?;
        while self.current == Token::Star || self.current == Token::Slash
            invariant
                self.wf(),
                self.text() == s,
                s == old(self).text(),
                q == old(self).pos(),
                q < self.pos() <= s.len(),
                term(s, q) == term_rest(s, acc, self.pos()),
            decreases s.len() - self.pos(),
        {
            let op = self.current;
            let op_pos = self.current_pos;
            self.advance()?;
            let v = self.factor()?;
            acc = apply_binary(op, acc, v, op_pos)?;
        }
        Ok(acc)
    }

    /// Evaluates an `expr` from the lookahead on.
    pub fn expr(&mut self) -> (r: Result<i64, Error>)
        requires
            old(self).wf(),
        ensures
            final(self).text() == old(self).text(),
            match expr(old(self).text(), old(self).pos()) {
                Ok((v, q1)) => r == Ok::<i64, Error>(v) && final(self).wf() && final(self).pos() == q1,
                Err(e) => r == Err::<i64, Error>(e),
            },
            r is Ok ==> old(self).pos() < final(self).pos() <= final(self).text().len(),
        decreases old(self).text().len() - old(self).pos(), 2nat,
    {
        let ghost s = self.text();
        let ghost q = self.pos();
        let mut acc = self.term()?;
        while self.current == Token::Plus || self.current == Token::Minus
            invariant
                self.wf(),
                self.text() == s,
                s == old(self).text(),
                q == old(self).pos(),
                q < self.pos() <= s.len(),
                expr(s, q) == expr_rest(s, acc, self.pos()),
            decreases s.len() - self.pos(),
        {
            let op = self.current;
            let op_pos = self.current_pos;
            self.advance()?;
            let v = self.term()?;
            acc = apply_binary(op, acc, v, op_pos)?;
        }
        Ok(acc)
    }

    /// Evaluates the whole input: one `expr` and then the end of the input.
    pub fn eval(&mut self) -> (r: Result<i64, Error>)
        requires
            old(self).wf(),
        ensures
            match expr(old(self).text(), old(self).pos()) {
                Ok((v, q1)) => if tok(old(self).text(), q1) == Token::EndOfInput {
                    r == Ok::<i64, Error>(v)
                } else {
                    r == Err::<i64, Error>(
                        Error::Parse(ParseError::TrailingInput { position: q1 as usize }),
                    )
                },
                Err(e) => r == Err::<i64, Error>(e),
            },
    {
        let v = self.expr()?;
        if self.current == Token::EndOfInput {
            Ok(v)
        } else {
            Err(Error::Parse(ParseError::TrailingInput { position: self.current_pos }))
        }
    }
}

/// Evaluates one line of input.
pub fn evaluate(text: &str) -> (r: Result<i64, Error>)
    ensures
        r == evaluation(text@),
{
    let mut interpreter = Interpreter::new(Lexer::new(text))?;
    interpreter.eval()
}

} // verus!
