use vstd::prelude::*;
use crate::lexer::{
    decimal_value, digits_end, is_space, lemma_lex_at_start, lex_at, skip_spaces,
};
use crate::parser::{
    binary, evaluation, expr, expr_rest, factor, step, term, term_rest, tok,
};
use crate::token::{ArithError, Error, LexError, ParseError, Token};

verus! {

/// `k` space characters.
pub open spec fn spaces(k: nat) -> Seq<char> {
    Seq::new(k, |i: int| ' ')
}

/// A lexical error with its position moved `k` characters on.
pub open spec fn shift_lex_error(e: LexError, k: int) -> LexError {
    match e {
        LexError::UnexpectedCharacter { ch, position } => LexError::UnexpectedCharacter {
            ch,
            position: (position + k) as usize,
        },
        LexError::Overflow { position } => LexError::Overflow { position: (position + k) as usize },
    }
}

/// An error with its position moved `k` characters on.
pub open spec fn shift_error(e: Error, k: int) -> Error {
    match e {
        Error::Lex(l) => Error::Lex(shift_lex_error(l, k)),
        Error::Parse(ParseError::UnexpectedToken { expected, found, position }) => Error::Parse(
            ParseError::UnexpectedToken { expected, found, position: (position + k) as usize },
        ),
        Error::Parse(ParseError::UnclosedParen { position }) => Error::Parse(
            ParseError::UnclosedParen { position: (position + k) as usize },
        ),
        Error::Parse(ParseError::TrailingInput { position }) => Error::Parse(
            ParseError::TrailingInput { position: (position + k) as usize },
        ),
        Error::Arith(ArithError::DivisionByZero { position }) => Error::Arith(
            ArithError::DivisionByZero { position: (position + k) as usize },
        ),
        Error::Arith(ArithError::Overflow { position }) => Error::Arith(
            ArithError::Overflow { position: (position + k) as usize },
        ),
    }
}

/// The same value, with every error position moved `k` characters on.
pub open spec fn shift_value(r: Result<i64, Error>, k: int) -> Result<i64, Error> {
    match r {
        Ok(v) => Ok(v),
        Err(e) => Err(shift_error(e, k)),
    }
}

spec fn shift_lex(r: Result<(Token, int, int), LexError>, k: int) -> Result<
    (Token, int, int),
    LexError,
> {
    match r {
        Ok((t, a, b)) => Ok((t, a + k, b + k)),
        Err(e) => Err(shift_lex_error(e, k)),
    }
}

spec fn shift_pos(r: Result<int, Error>, k: int) -> Result<int, Error> {
    match r {
        Ok(q) => Ok(q + k),
        Err(e) => Err(shift_error(e, k)),
    }
}

spec fn shift_parse(r: Result<(i64, int), Error>, k: int) -> Result<(i64, int), Error> {
    match r {
        Ok((v, q)) => Ok((v, q + k)),
        Err(e) => Err(shift_error(e, k)),
    }
}

/// `t` is `s` after `k` spaces, and positions in it fit in `usize`.
spec fn padded(s: Seq<char>, t: Seq<char>, k: int) -> bool {
    &&& 0 <= k
    &&& t == spaces(k as nat) + s
    &&& t.len() <= usize::MAX
}

/// A parser state: the token that starts at `q` lexes.
spec fn good(s: Seq<char>, q: int) -> bool {
    0 <= q <= s.len() && lex_at(s, q) is Ok
}

proof fn lemma_padded_index(s: Seq<char>, t: Seq<char>, k: int)
    requires
        padded(s, t, k),
    ensures
        forall|i: int| 0 <= i < s.len() ==> #[trigger] t[i + k] == s[i],
        forall|i: int| 0 <= i < k ==> is_space(#[trigger] t[i]),
        t.len() == s.len() + k,
{
    assert forall|i: int| 0 <= i < s.len() implies #[trigger] t[i + k] == s[i] by {}
    assert forall|i: int| 0 <= i < k implies is_space(#[trigger] t[i]) by {}
}

proof fn lemma_skip_shift(s: Seq<char>, t: Seq<char>, k: int, q: int)
    requires
        padded(s, t, k),
        0 <= q <= s.len(),
    ensures
        skip_spaces(t, q + k) == skip_spaces(s, q) + k,
    decreases s.len() - q,
{
    lemma_padded_index(s, t, k);
    if q < s.len() && is_space(s[q]) {
        lemma_skip_shift(s, t, k, q + 1);
    }
}

proof fn lemma_skip_leading(t: Seq<char>, k: int, i: int)
    requires
        0 <= i <= k <= t.len(),
        forall|j: int| 0 <= j < k ==> is_space(#[trigger] t[j]),
    ensures
        skip_spaces(t, i) == skip_spaces(t, k),
    decreases k - i,
{
    if i < k {
        lemma_skip_leading(t, k, i + 1);
    }
}

proof fn lemma_digits_shift(s: Seq<char>, t: Seq<char>, k: int, q: int)
    requires
        padded(s, t, k),
        0 <= q <= s.len(),
    ensures
        digits_end(t, q + k) == digits_end(s, q) + k,
    decreases s.len() - q,
{
    lemma_padded_index(s, t, k);
    if q < s.len() && crate::lexer::is_digit(s[q]) {
        lemma_digits_shift(s, t, k, q + 1);
    }
}

proof fn lemma_value_shift(s: Seq<char>, t: Seq<char>, k: int, a: int, b: int)
    requires
        padded(s, t, k),
        0 <= a,
        b <= s.len(),
    ensures
        decimal_value(t, a + k, b + k) == decimal_value(s, a, b),
    decreases b - a,
{
    lemma_padded_index(s, t, k);
    if b > a {
        lemma_value_shift(s, t, k, a, b - 1);
        assert(t[(b - 1) + k] == s[b - 1]);
    }
}

proof fn lemma_lex_shift(s: Seq<char>, t: Seq<char>, k: int, q: int)
    requires
        padded(s, t, k),
        0 <= q <= s.len(),
    ensures
        lex_at(t, q + k) == shift_lex(lex_at(s, q), k),
{
    lemma_padded_index(s, t, k);
    lemma_skip_shift(s, t, k, q);
    crate::lexer::lemma_skip_spaces_bounds(s, q);
    let p = skip_spaces(s, q);
    if p < s.len() {
        assert(t[p + k] == s[p]);
        lemma_digits_shift(s, t, k, p);
        crate::lexer::lemma_digits_end_bounds(s, p);
        lemma_value_shift(s, t, k, p, digits_end(s, p));
    }
}

proof fn lemma_step_shift(s: Seq<char>, t: Seq<char>, k: int, q: int)
    requires
        padded(s, t, k),
        good(s, q),
    ensures
        good(t, q + k),
        tok(t, q + k) == tok(s, q),
        step(t, q + k) == shift_pos(step(s, q), k),
        step(s, q) is Ok ==> good(s, step(s, q)->Ok_0) && q <= step(s, q)->Ok_0,
{
    lemma_lex_shift(s, t, k, q);
    lemma_lex_at_start(s, q);
    let e = lex_at(s, q)->Ok_0.2;
    lemma_lex_shift(s, t, k, e);
    if lex_at(s, e) is Ok {
        lemma_lex_at_start(s, e);
    }
}

proof fn lemma_binary_shift(op: Token, a: i64, b: i64, q: int, k: int)
    requires
        0 <= q,
        0 <= k,
        q + k <= usize::MAX,
    ensures
        binary(op, a, b, q + k) == shift_value(binary(op, a, b, q), k),
{
}

proof fn lemma_factor_shift(s: Seq<char>, t: Seq<char>, k: int, q: int)
    requires
        padded(s, t, k),
        good(s, q),
    ensures
        factor(t, q + k) == shift_parse(factor(s, q), k),
        factor(s, q) is Ok ==> good(s, factor(s, q)->Ok_0.1) && q <= factor(s, q)->Ok_0.1,
    decreases s.len() - q, 0nat,
{
    lemma_step_shift(s, t, k, q);
    if step(s, q) is Ok {
        let q1 = step(s, q)->Ok_0;
        if crate::parser::moved(s, q, q1) {
            match tok(s, q) {
                Token::Minus => {
                    lemma_factor_shift(s, t, k, q1);
                },
                Token::LParen => {
                    lemma_expr_shift(s, t, k, q1);
                    if expr(s, q1) is Ok {
                        let q2 = expr(s, q1)->Ok_0.1;
                        lemma_step_shift(s, t, k, q2);
                    }
                },
                _ => {},
            }
        }
    }
}

proof fn lemma_term_rest_shift(s: Seq<char>, t: Seq<char>, k: int, acc: i64, q: int)
    requires
        padded(s, t, k),
        good(s, q),
    ensures
        term_rest(t, acc, q + k) == shift_parse(term_rest(s, acc, q), k),
        term_rest(s, acc, q) is Ok ==> good(s, term_rest(s, acc, q)->Ok_0.1) && q <= term_rest(
            s,
            acc,
            q,
        )->Ok_0.1,
    decreases s.len() - q, 1nat,
{
    lemma_step_shift(s, t, k, q);
    if (tok(s, q) == Token::Star || tok(s, q) == Token::Slash) && step(s, q) is Ok {
        let q1 = step(s, q)->Ok_0;
        if crate::parser::moved(s, q, q1) {
            lemma_factor_shift(s, t, k, q1);
            if factor(s, q1) is Ok {
                let (v, q2) = factor(s, q1)->Ok_0;
                lemma_binary_shift(tok(s, q), acc, v, q, k);
                let b = binary(tok(s, q), acc, v, q);
                if b is Ok && crate::parser::moved(s, q, q2) {
                    lemma_term_rest_shift(s, t, k, b->Ok_0, q2);
                }
            }
        }
    }
}

proof fn lemma_term_shift(s: Seq<char>, t: Seq<char>, k: int, q: int)
    requires
        padded(s, t, k),
        good(s, q),
    ensures
        term(t, q + k) == shift_parse(term(s, q), k),
        term(s, q) is Ok ==> good(s, term(s, q)->Ok_0.1) && q <= term(s, q)->Ok_0.1,
    decreases s.len() - q, 2nat,
{
    lemma_factor_shift(s, t, k, q);
    if factor(s, q) is Ok {
        let (v, q1) = factor(s, q)->Ok_0;
        lemma_term_rest_shift(s, t, k, v, q1);
    }
}

proof fn lemma_expr_rest_shift(s: Seq<char>, t: Seq<char>, k: int, acc: i64, q: int)
    requires
        padded(s, t, k),
        good(s, q),
    ensures
        expr_rest(t, acc, q + k) == shift_parse(expr_rest(s, acc, q), k),
        expr_rest(s, acc, q) is Ok ==> good(s, expr_rest(s, acc, q)->Ok_0.1) && q <= expr_rest(
            s,
            acc,
            q,
        )->Ok_0.1,
    decreases s.len() - q, 3nat,
{
    lemma_step_shift(s, t, k, q);
    if (tok(s, q) == Token::Plus || tok(s, q) == Token::Minus) && step(s, q) is Ok {
        let q1 = step(s, q)->Ok_0;
        if crate::parser::moved(s, q, q1) {
            lemma_term_shift(s, t, k, q1);
            if term(s, q1) is Ok {
                let (v, q2) = term(s, q1)->Ok_0;
                lemma_binary_shift(tok(s, q), acc, v, q, k);
                let b = binary(tok(s, q), acc, v, q);
                if b is Ok && crate::parser::moved(s, q, q2) {
                    lemma_expr_rest_shift(s, t, k, b->Ok_0, q2);
                }
            }
        }
    }
}

proof fn lemma_expr_shift(s: Seq<char>, t: Seq<char>, k: int, q: int)
    requires
        padded(s, t, k),
        good(s, q),
    ensures
        expr(t, q + k) == shift_parse(expr(s, q), k),
        expr(s, q) is Ok ==> good(s, expr(s, q)->Ok_0.1) && q <= expr(s, q)->Ok_0.1,
    decreases s.len() - q, 4nat,
{
    lemma_term_shift(s, t, k, q);
    if term(s, q) is Ok {
        let (v, q1) = term(s, q)->Ok_0;
        lemma_expr_rest_shift(s, t, k, v, q1);
    }
}

/// Whitespace before an expression is insignificant: it changes no value,
/// and moves each reported position on by its length.
pub proof fn lemma_leading_spaces(s: Seq<char>, k: nat)
    requires
        s.len() + k <= usize::MAX,
    ensures
        evaluation(spaces(k) + s) == shift_value(evaluation(s), k as int),
{
    let t = spaces(k) + s;
    let ki = k as int;
    lemma_padded_index(s, t, ki);
    lemma_skip_leading(t, ki, 0);
    lemma_lex_shift(s, t, ki, 0);
    assert(lex_at(t, 0) == lex_at(t, ki));
    if lex_at(s, 0) is Ok {
        let q0 = lex_at(s, 0)->Ok_0.1;
        lemma_lex_at_start(s, 0);
        lemma_expr_shift(s, t, ki, q0);
        if expr(s, q0) is Ok {
            let q1 = expr(s, q0)->Ok_0.1;
            lemma_step_shift(s, t, ki, q1);
        }
    }
}

} // verus!
