use rustic::enums::{LexError, Token};
use rustic::lexer::{lex, Lexer};
use rustic::rat::Rat;

#[test]
fn test_next_token() {
    let mut lexer = Lexer::new(b"1 + 2 - 3 * 4 / 5".to_vec());
    assert_eq!(lexer.next_token(), Ok(Some(Token::Number(Rat::new(1, 1)))));
    assert_eq!(lexer.next_token(), Ok(Some(Token::Plus)));
    assert_eq!(lexer.next_token(), Ok(Some(Token::Number(Rat::new(2, 1)))));
    assert_eq!(lexer.next_token(), Ok(Some(Token::Minus)));
    assert_eq!(lexer.next_token(), Ok(Some(Token::Number(Rat::new(3, 1)))));
    assert_eq!(lexer.next_token(), Ok(Some(Token::Star)));
    assert_eq!(lexer.next_token(), Ok(Some(Token::Number(Rat::new(4, 1)))));
    assert_eq!(lexer.next_token(), Ok(Some(Token::Slash)));
    assert_eq!(lexer.next_token(), Ok(Some(Token::Number(Rat::new(5, 1)))));
    assert_eq!(lexer.next_token(), Ok(None));
}

#[test]
fn test_next_token_with_print() {
    let mut lexer = Lexer::new(b"print 1 + 2 - 3 * 4 / 5".to_vec());
    assert_eq!(lexer.next_token(), Ok(Some(Token::Print)));
    assert_eq!(lexer.next_token(), Ok(Some(Token::Number(Rat::new(1, 1)))));
    assert_eq!(lexer.next_token(), Ok(Some(Token::Plus)));
    assert_eq!(lexer.next_token(), Ok(Some(Token::Number(Rat::new(2, 1)))));
    assert_eq!(lexer.next_token(), Ok(Some(Token::Minus)));
    assert_eq!(lexer.next_token(), Ok(Some(Token::Number(Rat::new(3, 1)))));
    assert_eq!(lexer.next_token(), Ok(Some(Token::Star)));
    assert_eq!(lexer.next_token(), Ok(Some(Token::Number(Rat::new(4, 1)))));
    assert_eq!(lexer.next_token(), Ok(Some(Token::Slash)));
    assert_eq!(lexer.next_token(), Ok(Some(Token::Number(Rat::new(5, 1)))));
    assert_eq!(lexer.next_token(), Ok(None));
}

#[test]
fn test_next_token_with_factorial() {
    let mut lexer = Lexer::new(b"1 + 2 - 3 * 4 / 5!".to_vec());
    assert_eq!(lexer.next_token(), Ok(Some(Token::Number(Rat::new(1, 1)))));
    assert_eq!(lexer.next_token(), Ok(Some(Token::Plus)));
    assert_eq!(lexer.next_token(), Ok(Some(Token::Number(Rat::new(2, 1)))));
    assert_eq!(lexer.next_token(), Ok(Some(Token::Minus)));
    assert_eq!(lexer.next_token(), Ok(Some(Token::Number(Rat::new(3, 1)))));
    assert_eq!(lexer.next_token(), Ok(Some(Token::Star)));
    assert_eq!(lexer.next_token(), Ok(Some(Token::Number(Rat::new(4, 1)))));
    assert_eq!(lexer.next_token(), Ok(Some(Token::Slash)));
    assert_eq!(lexer.next_token(), Ok(Some(Token::Number(Rat::new(5, 1)))));
    assert_eq!(lexer.next_token(), Ok(Some(Token::Factorial)));
    assert_eq!(lexer.next_token(), Ok(None));
}

#[test]
fn test_next_token_with_identifier() {
    let mut lexer = Lexer::new(b"a = 1 + 2 - 3 * 4 / 5".to_vec());
    assert_eq!(lexer.next_token(), Ok(Some(Token::Identifier(b"a".to_vec()))));
    assert_eq!(lexer.next_token(), Ok(Some(Token::Equal)));
    assert_eq!(lexer.next_token(), Ok(Some(Token::Number(Rat::new(1, 1)))));
    assert_eq!(lexer.next_token(), Ok(Some(Token::Plus)));
    assert_eq!(lexer.next_token(), Ok(Some(Token::Number(Rat::new(2, 1)))));
    assert_eq!(lexer.next_token(), Ok(Some(Token::Minus)));
    assert_eq!(lexer.next_token(), Ok(Some(Token::Number(Rat::new(3, 1)))));
    assert_eq!(lexer.next_token(), Ok(Some(Token::Star)));
    assert_eq!(lexer.next_token(), Ok(Some(Token::Number(Rat::new(4, 1)))));
    assert_eq!(lexer.next_token(), Ok(Some(Token::Slash)));
    assert_eq!(lexer.next_token(), Ok(Some(Token::Number(Rat::new(5, 1)))));
    assert_eq!(lexer.next_token(), Ok(None));
}

#[test]
fn test_next_token_with_parentheses() {
    let mut lexer = Lexer::new(b"(1 + 2) - (3 * 4) / 5".to_vec());
    assert_eq!(lexer.next_token(), Ok(Some(Token::LParen)));
    assert_eq!(lexer.next_token(), Ok(Some(Token::Number(Rat::new(1, 1)))));
    assert_eq!(lexer.next_token(), Ok(Some(Token::Plus)));
    assert_eq!(lexer.next_token(), Ok(Some(Token::Number(Rat::new(2, 1)))));
    assert_eq!(lexer.next_token(), Ok(Some(Token::RParen)));
    assert_eq!(lexer.next_token(), Ok(Some(Token::Minus)));
    assert_eq!(lexer.next_token(), Ok(Some(Token::LParen)));
    assert_eq!(lexer.next_token(), Ok(Some(Token::Number(Rat::new(3, 1)))));
    assert_eq!(lexer.next_token(), Ok(Some(Token::Star)));
    assert_eq!(lexer.next_token(), Ok(Some(Token::Number(Rat::new(4, 1)))));
    assert_eq!(lexer.next_token(), Ok(Some(Token::RParen)));
    assert_eq!(lexer.next_token(), Ok(Some(Token::Slash)));
    assert_eq!(lexer.next_token(), Ok(Some(Token::Number(Rat::new(5, 1)))));
    assert_eq!(lexer.next_token(), Ok(None));
}

#[test]
fn test_lexer_tokenize() {
    let test_cases = vec![
        (
            b"1 + 2".to_vec(),
            vec![
                Token::Number(Rat::new(1, 1)),
                Token::Plus,
                Token::Number(Rat::new(2, 1)),
            ],
        ),
        (
            b"3 * 4".to_vec(),
            vec![
                Token::Number(Rat::new(3, 1)),
                Token::Star,
                Token::Number(Rat::new(4, 1)),
            ],
        ),
        (
            b"5 / 6".to_vec(),
            vec![
                Token::Number(Rat::new(5, 1)),
                Token::Slash,
                Token::Number(Rat::new(6, 1)),
            ],
        ),
        (
            b"7 - 8".to_vec(),
            vec![
                Token::Number(Rat::new(7, 1)),
                Token::Minus,
                Token::Number(Rat::new(8, 1)),
            ],
        ),
    ];

    for (input, expected) in test_cases {
        let tokens = lex(&input).unwrap();
        assert_eq!(tokens, expected);
    }
}

#[test]
fn test_lex_decimal_literal() {
    let tokens = lex(&b"1.25".to_vec()).unwrap();
    assert_eq!(tokens, vec![Token::Number(Rat::new(125, 100))]);
}

#[test]
fn test_lex_price_is_an_identifier() {
    let tokens = lex(&b"price".to_vec()).unwrap();
    assert_eq!(tokens, vec![Token::Identifier(b"price".to_vec())]);
}

#[test]
fn test_lex_two_dots_is_malformed() {
    assert_eq!(lex(&b"1.2.3".to_vec()), Err(LexError::MalformedNumber));
}

#[test]
fn test_lex_trailing_dot_is_malformed() {
    assert_eq!(lex(&b"1.".to_vec()), Err(LexError::MalformedNumber));
}

#[test]
fn test_lex_unrecognized_char() {
    assert_eq!(lex(&b"1 + #".to_vec()), Err(LexError::UnrecognizedChar(b'#')));
}

#[test]
fn test_lex_number_too_large() {
    assert_eq!(
        lex(&b"99999999999999999999".to_vec()),
        Err(LexError::NumberTooLarge)
    );
}

#[test]
fn test_lex_semicolon_and_newline_end_statements() {
    let tokens = lex(&b"1;2\n3".to_vec()).unwrap();
    assert_eq!(
        tokens,
        vec![
            Token::Number(Rat::new(1, 1)),
            Token::End,
            Token::Number(Rat::new(2, 1)),
            Token::End,
            Token::Number(Rat::new(3, 1)),
        ]
    );
}
