use vstd::prelude::*;
use crate::lexer::{decimal_value, digit_value, digits_end, is_digit, is_space, lex_at, skip_spaces};
use crate::parser::{evaluation, expr, expr_rest, factor, moved, step, term, term_rest, tok};
use crate::token::{Error, Token};

verus! {

/// The character of the decimal digit `d`.
pub open spec fn digit_char(d: nat) -> char {
    if d == 0 {
        '0'
    } else if d == 1 {
        '1'
    } else if d == 2 {
        '2'
    } else if d == 3 {
        '3'
    } else if d == 4 {
        '4'
    } else if d == 5 {
        '5'
    } else if d == 6 {
        '6'
    } else if d == 7 {
        '7'
    } else if d == 8 {
        '8'
    } else {
        '9'
    }
}

/// The decimal literal of `n`, without leading zeros.
pub open spec fn decimal(n: nat) -> Seq<char>
    decreases n,
{
    if n < 10 {
        seq![digit_char(n)]
    } else {
        decimal(n / 10).push(digit_char(n % 10))
    }
}

proof fn lemma_decimal_value_agree(s1: Seq<char>, s2: Seq<char>, start: int, end: int)
    requires
        0 <= start,
        end <= s1.len(),
        end <= s2.len(),
        forall|i: int| start <= i < end ==> s1[i] == s2[i],
    ensures
        decimal_value(s1, start, end) == decimal_value(s2, start, end),
    decreases end - start,
{
    if end > start {
        lemma_decimal_value_agree(s1, s2, start, end - 1);
    }
}

proof fn lemma_digits_to_end(s: Seq<char>, p: int)
    requires
        0 <= p <= s.len(),
        forall|i: int| p <= i < s.len() ==> is_digit(s[i]),
    ensures
        digits_end(s, p) == s.len(),
    decreases s.len() - p,
{
    if p < s.len() {
        lemma_digits_to_end(s, p + 1);
    }
}

proof fn lemma_decimal(n: nat)
    ensures
        decimal(n).len() >= 1,
        forall|i: int| 0 <= i < decimal(n).len() ==> is_digit(#[trigger] decimal(n)[i]),
        decimal_value(decimal(n), 0, decimal(n).len() as int) == n,
    decreases n,
{
    let d = digit_char(n % 10);
    assert(is_digit(d) && digit_value(d) == n % 10);
    if n >= 10 {
        let p = decimal(n / 10);
        lemma_decimal(n / 10);
        let s = p.push(d);
        lemma_decimal_value_agree(p, s, 0, p.len() as int);
        assert(decimal_value(s, 0, s.len() as int) == decimal_value(s, 0, p.len() as int) * 10
            + digit_value(d));
        assert forall|i: int| 0 <= i < s.len() implies is_digit(#[trigger] s[i]) by {
            if i < p.len() {
                assert(s[i] == p[i]);
            }
        }
    } else {
        assert(decimal_value(decimal(n), 0, 1) == decimal_value(decimal(n), 0, 0) * 10
            + digit_value(d));
    }
}

/// The literal of any non-negative `i64`, alone, evaluates to that number.
pub proof fn lemma_literal_evaluates(a: i64)
    requires
        a >= 0,
    ensures
        evaluation(decimal(a as nat)) == Ok::<i64, crate::token::Error>(a),
{
    let s = decimal(a as nat);
    let n = s.len() as int;
    lemma_decimal(a as nat);
    lemma_digits_to_end(s, 0);
    assert(is_digit(s[0]));
    assert(!is_space(s[0]));
    assert(skip_spaces(s, 0) == 0);
    assert(lex_at(s, 0) == Ok::<(Token, int, int), crate::token::LexError>(
        (Token::Integer(a), 0, n),
    ));
    assert(skip_spaces(s, n) == n);
    assert(lex_at(s, n) == Ok::<(Token, int, int), crate::token::LexError>(
        (Token::EndOfInput, n, n),
    ));
    assert(step(s, 0) == Ok::<int, crate::token::Error>(n));
    assert(factor(s, 0) == Ok::<(i64, int), crate::token::Error>((a, n)));
    assert(tok(s, n) == Token::EndOfInput);
    assert(term_rest(s, a, n) == Ok::<(i64, int), crate::token::Error>((a, n)));
    assert(term(s, 0) == Ok::<(i64, int), crate::token::Error>((a, n)));
    assert(expr_rest(s, a, n) == Ok::<(i64, int), crate::token::Error>((a, n)));
    assert(expr(s, 0) == Ok::<(i64, int), crate::token::Error>((a, n)));
}

/// Where the next token starts once the token at `q` is consumed, if the
/// input lexes that far.
pub open spec fn next_start(s: Seq<char>, q: int) -> Option<int> {
    match step(s, q) {
        Ok(q1) => Some(q1),
        Err(_) => None,
    }
}

/// Where a `factor` that starts at `q` ends, if the tokens form one.
pub open spec fn factor_end(s: Seq<char>, q: int) -> Option<int>
    decreases s.len() - q, 0nat,
{
    match tok(s, q) {
        Token::Integer(_) => next_start(s, q),
        Token::Minus => match next_start(s, q) {
            Some(q1) => if moved(s, q, q1) { factor_end(s, q1) } else { None },
            None => None,
        },
        Token::LParen => match next_start(s, q) {
            Some(q1) => if moved(s, q, q1) {
                match expr_end(s, q1) {
                    Some(q2) => if tok(s, q2) == Token::RParen { next_start(s, q2) } else { None },
                    None => None,
                }
            } else {
                None
            },
            None => None,
        },
        _ => None,
    }
}

/// Where `(('*' | '/') factor)*` from `q` ends, if the tokens form it.
pub open spec fn term_rest_end(s: Seq<char>, q: int) -> Option<int>
    decreases s.len() - q, 1nat,
{
    if tok(s, q) == Token::Star || tok(s, q) == Token::Slash {
        match next_start(s, q) {
            Some(q1) => if moved(s, q, q1) {
                match factor_end(s, q1) {
                    Some(q2) => if moved(s, q, q2) { term_rest_end(s, q2) } else { None },
                    None => None,
                }
            } else {
                None
            },
            None => None,
        }
    } else {
        Some(q)
    }
}

/// Where a `term` that starts at `q` ends, if the tokens form one.
pub open spec fn term_end(s: Seq<char>, q: int) -> Option<int>
    decreases s.len() - q, 2nat,
{
    match factor_end(s, q) {
        Some(q1) => if q <= q1 <= s.len() { term_rest_end(s, q1) } else { None },
        None => None,
    }
}

/// Where `(('+' | '-') term)*` from `q` ends, if the tokens form it.
pub open spec fn expr_rest_end(s: Seq<char>, q: int) -> Option<int>
    decreases s.len() - q, 3nat,
{
    if tok(s, q) == Token::Plus || tok(s, q) == Token::Minus {
        match next_start(s, q) {
            Some(q1) => if moved(s, q, q1) {
                match term_end(s, q1) {
                    Some(q2) => if moved(s, q, q2) { expr_rest_end(s, q2) } else { None },
                    None => None,
                }
            } else {
                None
            },
            None => None,
        }
    } else {
        Some(q)
    }
}

/// Where an `expr` that starts at `q` ends, if the tokens form one.
pub open spec fn expr_end(s: Seq<char>, q: int) -> Option<int>
    decreases s.len() - q, 4nat,
{
    match term_end(s, q) {
        Some(q1) => if q <= q1 <= s.len() { expr_rest_end(s, q1) } else { None },
        None => None,
    }
}

/// The whole of `s` lexes into tokens that form one `expr`, whatever the
/// values of its numbers.
pub open spec fn conforms(s: Seq<char>) -> bool {
    match lex_at(s, 0) {
        Ok((_, q0, _)) => match expr_end(s, q0) {
            Some(q1) => tok(s, q1) == Token::EndOfInput,
            None => false,
        },
        Err(_) => false,
    }
}

proof fn lemma_factor_conforms(s: Seq<char>, q: int)
    ensures
        factor(s, q) is Ok ==> factor_end(s, q) == Some(factor(s, q)->Ok_0.1),
    decreases s.len() - q, 0nat,
{
    if factor(s, q) is Ok {
        match tok(s, q) {
            Token::Minus => {
                let q1 = step(s, q)->Ok_0;
                lemma_factor_conforms(s, q1);
            },
            Token::LParen => {
                let q1 = step(s, q)->Ok_0;
                lemma_expr_conforms(s, q1);
            },
            _ => {},
        }
    }
}

proof fn lemma_term_rest_conforms(s: Seq<char>, acc: i64, q: int)
    ensures
        term_rest(s, acc, q) is Ok ==> term_rest_end(s, q) == Some(term_rest(s, acc, q)->Ok_0.1),
    decreases s.len() - q, 1nat,
{
    if term_rest(s, acc, q) is Ok && (tok(s, q) == Token::Star || tok(s, q) == Token::Slash) {
        let q1 = step(s, q)->Ok_0;
        lemma_factor_conforms(s, q1);
        let (v, q2) = factor(s, q1)->Ok_0;
        let a = crate::parser::binary(tok(s, q), acc, v, q)->Ok_0;
        lemma_term_rest_conforms(s, a, q2);
    }
}

proof fn lemma_term_conforms(s: Seq<char>, q: int)
    ensures
        term(s, q) is Ok ==> term_end(s, q) == Some(term(s, q)->Ok_0.1),
    decreases s.len() - q, 2nat,
{
    lemma_factor_conforms(s, q);
    if factor(s, q) is Ok {
        let (v, q1) = factor(s, q)->Ok_0;
        if q <= q1 <= s.len() {
            lemma_term_rest_conforms(s, v, q1);
        }
    }
}

proof fn lemma_expr_rest_conforms(s: Seq<char>, acc: i64, q: int)
    ensures
        expr_rest(s, acc, q) is Ok ==> expr_rest_end(s, q) == Some(expr_rest(s, acc, q)->Ok_0.1),
    decreases s.len() - q, 3nat,
{
    if expr_rest(s, acc, q) is Ok && (tok(s, q) == Token::Plus || tok(s, q) == Token::Minus) {
        let q1 = step(s, q)->Ok_0;
        lemma_term_conforms(s, q1);
        let (v, q2) = term(s, q1)->Ok_0;
        let a = crate::parser::binary(tok(s, q), acc, v, q)->Ok_0;
        lemma_expr_rest_conforms(s, a, q2);
    }
}

proof fn lemma_expr_conforms(s: Seq<char>, q: int)
    ensures
        expr(s, q) is Ok ==> expr_end(s, q) == Some(expr(s, q)->Ok_0.1),
    decreases s.len() - q, 4nat,
{
    lemma_term_conforms(s, q);
    if term(s, q) is Ok {
        let (v, q1) = term(s, q)->Ok_0;
        if q <= q1 <= s.len() {
            lemma_expr_rest_conforms(s, v, q1);
        }
    }
}

/// Input whose tokens do not form an `expr` never evaluates to a number:
/// evaluation of it ends in an error.
pub proof fn lemma_nonconforming_fails(s: Seq<char>)
    requires
        !conforms(s),
    ensures
        evaluation(s) is Err,
{
    if let Ok((_, q0, _)) = lex_at(s, 0) {
        lemma_expr_conforms(s, q0);
    }
}

/// Evaluation depends on the text alone: two evaluations of the same text
/// give the same number or the same error.
pub proof fn lemma_evaluation_repeatable(s1: Seq<char>, s2: Seq<char>)
    requires
        s1 == s2,
    ensures
        evaluation(s1) == evaluation(s2),
{
}

/// A parse that ended in a value at `end`, or in an arithmetic error.
pub open spec fn parsed_to(r: Result<(i64, int), Error>, end: int) -> bool {
    match r {
        Ok((_, q1)) => q1 == end,
        Err(e) => e is Arith,
    }
}

proof fn lemma_factor_evaluates(s: Seq<char>, q: int)
    ensures
        factor_end(s, q) is Some ==> parsed_to(factor(s, q), factor_end(s, q)->Some_0),
    decreases s.len() - q, 0nat,
{
    if factor_end(s, q) is Some {
        match tok(s, q) {
            Token::Minus => {
                let q1 = step(s, q)->Ok_0;
                lemma_factor_evaluates(s, q1);
            },
            Token::LParen => {
                let q1 = step(s, q)->Ok_0;
                lemma_expr_evaluates(s, q1);
            },
            _ => {},
        }
    }
}

proof fn lemma_term_rest_evaluates(s: Seq<char>, acc: i64, q: int)
    ensures
        term_rest_end(s, q) is Some ==> parsed_to(term_rest(s, acc, q), term_rest_end(s, q)->Some_0),
    decreases s.len() - q, 1nat,
{
    if term_rest_end(s, q) is Some && (tok(s, q) == Token::Star || tok(s, q) == Token::Slash) {
        let q1 = step(s, q)->Ok_0;
        lemma_factor_evaluates(s, q1);
        if factor(s, q1) is Ok {
            let (v, q2) = factor(s, q1)->Ok_0;
            let b = crate::parser::binary(tok(s, q), acc, v, q);
            if b is Ok {
                lemma_term_rest_evaluates(s, b->Ok_0, q2);
            }
        }
    }
}

proof fn lemma_term_evaluates(s: Seq<char>, q: int)
    ensures
        term_end(s, q) is Some ==> parsed_to(term(s, q), term_end(s, q)->Some_0),
    decreases s.len() - q, 2nat,
{
    lemma_factor_evaluates(s, q);
    if factor(s, q) is Ok {
        let (v, q1) = factor(s, q)->Ok_0;
        if q <= q1 <= s.len() {
            lemma_term_rest_evaluates(s, v, q1);
        }
    }
}

proof fn lemma_expr_rest_evaluates(s: Seq<char>, acc: i64, q: int)
    ensures
        expr_rest_end(s, q) is Some ==> parsed_to(expr_rest(s, acc, q), expr_rest_end(s, q)->Some_0),
    decreases s.len() - q, 3nat,
{
    if expr_rest_end(s, q) is Some && (tok(s, q) == Token::Plus || tok(s, q) == Token::Minus) {
        let q1 = step(s, q)->Ok_0;
        lemma_term_evaluates(s, q1);
        if term(s, q1) is Ok {
            let (v, q2) = term(s, q1)->Ok_0;
            let b = crate::parser::binary(tok(s, q), acc, v, q);
            if b is Ok {
                lemma_expr_rest_evaluates(s, b->Ok_0, q2);
            }
        }
    }
}

proof fn lemma_expr_evaluates(s: Seq<char>, q: int)
    ensures
        expr_end(s, q) is Some ==> parsed_to(expr(s, q), expr_end(s, q)->Some_0),
    decreases s.len() - q, 4nat,
{
    lemma_term_evaluates(s, q);
    if term(s, q) is Ok {
        let (v, q1) = term(s, q)->Ok_0;
        if q <= q1 <= s.len() {
            lemma_expr_rest_evaluates(s, v, q1);
        }
    }
}

/// Input whose tokens form an `expr` evaluates to a number unless the
/// arithmetic itself fails (division by zero, or a value outside `i64`).
pub proof fn lemma_conforming_evaluates(s: Seq<char>)
    requires
        conforms(s),
    ensures
        evaluation(s) is Ok || evaluation(s)->Err_0 is Arith,
{
    let q0 = lex_at(s, 0)->Ok_0.1;
    lemma_expr_evaluates(s, q0);
}

} // verus!
