use calc::{Error, LexError, Lexer, ParseError, Interpreter, Token, TokenKind};

#[test]
fn lexer_partitions_input() {
    let mut lexer = Lexer::new(" 12 +(3*-4)/ 5");
    let expected = [
        Token::Integer(12),
        Token::Plus,
        Token::LParen,
        Token::Integer(3),
        Token::Star,
        Token::Minus,
        Token::Integer(4),
        Token::RParen,
        Token::Slash,
        Token::Integer(5),
        Token::EndOfInput,
    ];
    for t in expected {
        assert_eq!(lexer.get_next_token(), Ok(t));
    }
}

#[test]
fn lexer_stays_at_end() {
    let mut lexer = Lexer::new("7 ");
    assert_eq!(lexer.get_next_token(), Ok(Token::Integer(7)));
    assert_eq!(lexer.position(), 1);
    for _ in 0..3 {
        assert_eq!(lexer.get_next_token(), Ok(Token::EndOfInput));
        assert_eq!(lexer.position(), 2);
    }
}

#[test]
fn lexer_character_cursor() {
    let mut lexer = Lexer::new("a ");
    assert_eq!(lexer.peek_char(), Some('a'));
    lexer.advance();
    assert_eq!(lexer.peek_char(), Some(' '));
    lexer.skip_whitespace();
    assert_eq!(lexer.peek_char(), None);
    lexer.advance();
    assert_eq!(lexer.position(), 2);
    assert_eq!(lexer.peek_char(), None);
}

#[test]
fn lexer_skips_whitespace_only() {
    let mut lexer = Lexer::new(" \t x");
    lexer.skip_whitespace();
    assert_eq!(lexer.position(), 3);
    lexer.skip_whitespace();
    assert_eq!(lexer.position(), 3);
    assert_eq!(
        lexer.get_next_token(),
        Err(LexError::UnexpectedCharacter { ch: 'x', position: 3 })
    );
}

#[test]
fn lexer_counts_characters_not_bytes() {
    let mut lexer = Lexer::new("é");
    assert_eq!(
        lexer.get_next_token(),
        Err(LexError::UnexpectedCharacter { ch: 'é', position: 0 })
    );
}

#[test]
fn parser_eat_checks_the_kind() {
    let mut parser = Interpreter::new(Lexer::new("1 + 2")).unwrap();
    assert_eq!(parser.current(), Token::Integer(1));
    assert_eq!(
        parser.eat(TokenKind::Plus),
        Err(Error::Parse(ParseError::UnexpectedToken {
            expected: TokenKind::Plus,
            found: Token::Integer(1),
            position: 0,
        }))
    );
    assert_eq!(parser.eat(TokenKind::Integer), Ok(()));
    assert_eq!(parser.current(), Token::Plus);
    assert_eq!(parser.position(), 2);
    assert_eq!(parser.eat(TokenKind::Plus), Ok(()));
    assert_eq!(parser.term(), Ok(2));
    assert_eq!(parser.current(), Token::EndOfInput);
}

#[test]
fn parser_new_reports_lex_errors() {
    assert!(matches!(
        Interpreter::new(Lexer::new("#")),
        Err(Error::Lex(LexError::UnexpectedCharacter { ch: '#', position: 0 }))
    ));
}

#[test]
fn parser_evaluates_whole_input() {
    let mut parser = Interpreter::new(Lexer::new("2*(3+4)-1")).unwrap();
    assert_eq!(parser.eval(), Ok(13));
}

#[test]
fn token_kinds() {
    assert_eq!(Token::Integer(5).kind(), TokenKind::Integer);
    assert_eq!(Token::Slash.kind(), TokenKind::Slash);
    assert_eq!(Token::EndOfInput.kind(), TokenKind::EndOfInput);
}

#[test]
fn lexer_reads_integers() {
    let mut lexer = Lexer::new("305+");
    assert_eq!(lexer.integer(), Ok(305));
    assert_eq!(lexer.position(), 3);
    assert_eq!(lexer.peek_char(), Some('+'));
    let mut big = Lexer::new("92233720368547758070");
    assert_eq!(big.integer(), Err(LexError::Overflow { position: 0 }));
}
