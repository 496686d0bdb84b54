use calc::{evaluate, ArithError, Error, LexError, ParseError, Token, TokenKind};

#[test]
fn literals_evaluate_to_themselves() {
    assert_eq!(evaluate("0"), Ok(0));
    assert_eq!(evaluate("7"), Ok(7));
    assert_eq!(evaluate("42"), Ok(42));
    assert_eq!(evaluate("1000000"), Ok(1000000));
    assert_eq!(evaluate("9223372036854775807"), Ok(i64::MAX));
}

#[test]
fn literal_with_leading_zeros() {
    assert_eq!(evaluate("007"), Ok(7));
}

#[test]
fn subtraction_is_left_associative() {
    assert_eq!(evaluate("5-2-1"), Ok(2));
}

#[test]
fn division_is_left_associative() {
    assert_eq!(evaluate("8/2/2"), Ok(2));
}

#[test]
fn multiplication_binds_tighter() {
    assert_eq!(evaluate("2+3*4"), Ok(14));
}

#[test]
fn parentheses_group() {
    assert_eq!(evaluate("(2+3)*4"), Ok(20));
}

#[test]
fn unary_minus_composes() {
    assert_eq!(evaluate("-5"), Ok(-5));
    assert_eq!(evaluate("-(3+4)"), Ok(-7));
    assert_eq!(evaluate("-3*-2"), Ok(6));
    assert_eq!(evaluate("--4"), Ok(4));
}

#[test]
fn division_truncates_toward_zero() {
    assert_eq!(evaluate("7/2"), Ok(3));
    assert_eq!(evaluate("-7/2"), Ok(-3));
    assert_eq!(evaluate("7/-2"), Ok(-3));
    assert_eq!(evaluate("-7/-2"), Ok(3));
}

#[test]
fn division_by_zero_fails() {
    assert_eq!(
        evaluate("3/0"),
        Err(Error::Arith(ArithError::DivisionByZero { position: 1 }))
    );
}

#[test]
fn trailing_input_fails() {
    assert_eq!(
        evaluate("3 4"),
        Err(Error::Parse(ParseError::TrailingInput { position: 2 }))
    );
}

#[test]
fn unclosed_paren_fails() {
    assert_eq!(
        evaluate("(1+2"),
        Err(Error::Parse(ParseError::UnclosedParen { position: 0 }))
    );
}

#[test]
fn missing_operand_fails() {
    assert_eq!(
        evaluate("3+"),
        Err(Error::Parse(ParseError::UnexpectedToken {
            expected: TokenKind::Integer,
            found: Token::EndOfInput,
            position: 2,
        }))
    );
}

#[test]
fn empty_input_fails() {
    assert_eq!(
        evaluate(""),
        Err(Error::Parse(ParseError::UnexpectedToken {
            expected: TokenKind::Integer,
            found: Token::EndOfInput,
            position: 0,
        }))
    );
    assert_eq!(
        evaluate("   "),
        Err(Error::Parse(ParseError::UnexpectedToken {
            expected: TokenKind::Integer,
            found: Token::EndOfInput,
            position: 3,
        }))
    );
}

#[test]
fn wrong_token_inside_parens_fails() {
    assert_eq!(
        evaluate("(1 2)"),
        Err(Error::Parse(ParseError::UnexpectedToken {
            expected: TokenKind::RParen,
            found: Token::Integer(2),
            position: 3,
        }))
    );
}

#[test]
fn stray_closing_paren_fails() {
    assert_eq!(
        evaluate(")"),
        Err(Error::Parse(ParseError::UnexpectedToken {
            expected: TokenKind::Integer,
            found: Token::RParen,
            position: 0,
        }))
    );
    assert_eq!(
        evaluate("1)"),
        Err(Error::Parse(ParseError::TrailingInput { position: 1 }))
    );
}

#[test]
fn whitespace_between_tokens_is_ignored() {
    assert_eq!(evaluate("  2   +   3 "), Ok(5));
    assert_eq!(evaluate("2+3"), Ok(5));
    assert_eq!(evaluate("\t( 1 +\r\n2 ) * 3"), Ok(9));
}

#[test]
fn evaluation_is_repeatable() {
    for text in ["1+2*3", "3/0", "(1", "9 9", "12a"] {
        assert_eq!(evaluate(text), evaluate(text));
    }
}

#[test]
fn unexpected_character_fails() {
    assert_eq!(
        evaluate("2 $ 3"),
        Err(Error::Lex(LexError::UnexpectedCharacter { ch: '$', position: 2 }))
    );
    assert_eq!(
        evaluate("1.5"),
        Err(Error::Lex(LexError::UnexpectedCharacter { ch: '.', position: 1 }))
    );
}

#[test]
fn literal_overflow_fails() {
    assert_eq!(
        evaluate("1 + 9223372036854775808"),
        Err(Error::Lex(LexError::Overflow { position: 4 }))
    );
    assert_eq!(
        evaluate("99999999999999999999999"),
        Err(Error::Lex(LexError::Overflow { position: 0 }))
    );
}

#[test]
fn arithmetic_overflow_fails() {
    assert_eq!(
        evaluate("9223372036854775807+1"),
        Err(Error::Arith(ArithError::Overflow { position: 19 }))
    );
    assert_eq!(evaluate("-9223372036854775807-1"), Ok(i64::MIN));
    assert_eq!(
        evaluate("-(-9223372036854775807-1)"),
        Err(Error::Arith(ArithError::Overflow { position: 0 }))
    );
    assert_eq!(
        evaluate("(-9223372036854775807-1)/-1"),
        Err(Error::Arith(ArithError::Overflow { position: 24 }))
    );
    assert_eq!(
        evaluate("3037000500*3037000500"),
        Err(Error::Arith(ArithError::Overflow { position: 10 }))
    );
}

#[test]
fn tokens_are_read_lazily() {
    // The evaluator stops at the second number and never reads the `$`.
    assert_eq!(
        evaluate("3 4 $"),
        Err(Error::Parse(ParseError::TrailingInput { position: 2 }))
    );
    // Reading past the zero meets the `$` before the division happens.
    assert_eq!(
        evaluate("3/0$"),
        Err(Error::Lex(LexError::UnexpectedCharacter { ch: '$', position: 3 }))
    );
}

#[test]
fn leading_whitespace_only_moves_positions() {
    assert_eq!(evaluate("   2*3"), evaluate("2*3"));
    assert_eq!(
        evaluate("   3 4"),
        Err(Error::Parse(ParseError::TrailingInput { position: 5 }))
    );
    assert_eq!(
        evaluate("  1/0"),
        Err(Error::Arith(ArithError::DivisionByZero { position: 3 }))
    );
}

#[test]
fn nonconforming_inputs_fail() {
    for text in ["", "+", "1+", "(", ")(", "1 2", "((1)", "*3", "2**3", "-", "()"] {
        assert!(evaluate(text).is_err(), "{:?} should fail", text);
    }
}
