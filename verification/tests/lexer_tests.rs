use lispy::lexer::ParseHandler;
use lispy::lexer::Position;
use lispy::lexer::Token;
use lispy::lexer::TokenAndSpan;
use lispy::lexer::TokenizerError;

fn lexer_pos(line: usize, position: usize) -> Position {
    Position { line, position }
}

fn lexer_span(token: Token, from: (usize, usize), to: (usize, usize)) -> TokenAndSpan {
    TokenAndSpan { token, from: lexer_pos(from.0, from.1), to: lexer_pos(to.0, to.1) }
}

#[test]
fn lexer_it_handles_empty_buffer() {
    let mut handler = ParseHandler::new(b"".to_vec());
    assert_eq!(
        handler.get_token().unwrap(),
        lexer_span(Token::Eof, (0, 0), (0, 0))
    );

    let mut handler = ParseHandler::new(b"   ".to_vec());
    assert_eq!(
        handler.get_token().unwrap(),
        lexer_span(Token::Eof, (0, 3), (0, 3))
    );
}

#[test]
fn lexer_it_ignores_file_containing_only_comments() {
    let mut handler = ParseHandler::new(b"# blah".to_vec());
    assert_eq!(
        handler.get_token().unwrap(),
        lexer_span(Token::Eof, (0, 6), (0, 6))
    );

    let mut handler = ParseHandler::new(b"  # blah".to_vec());
    assert_eq!(
        handler.get_token().unwrap(),
        lexer_span(Token::Eof, (0, 8), (0, 8))
    );

    let mut handler = ParseHandler::new(b"  # only \n # comments".to_vec());
    assert_eq!(
        handler.get_token().unwrap(),
        lexer_span(Token::Eof, (1, 11), (1, 11))
    );

    let mut handler = ParseHandler::new(b"  # only \r # comments".to_vec());
    assert_eq!(
        handler.get_token().unwrap(),
        lexer_span(Token::Eof, (1, 11), (1, 11))
    );
}

#[test]
fn lexer_it_handles_parens() {
    let mut handler = ParseHandler::new(b"(".to_vec());
    assert_eq!(
        handler.get_token().unwrap(),
        lexer_span(Token::OpenParen, (0, 0), (0, 0))
    );
    assert_eq!(
        handler.get_token().unwrap(),
        lexer_span(Token::Eof, (0, 1), (0, 1))
    );

    let mut handler = ParseHandler::new(b"   )  # whodat".to_vec());
    assert_eq!(
        handler.get_token().unwrap(),
        lexer_span(Token::CloseParen, (0, 3), (0, 3))
    );
    assert_eq!(
        handler.get_token().unwrap(),
        lexer_span(Token::Eof, (0, 14), (0, 14))
    );
}

#[test]
fn lexer_it_handles_identifier_token() {
    let mut handler = ParseHandler::new(b"some_1dentifier".to_vec());
    assert_eq!(
        handler.get_token().unwrap(),
        lexer_span(
            Token::Identifier(String::from("some_1dentifier")),
            (0, 0),
            (0, 14)
        )
    );
    assert_eq!(
        handler.get_token().unwrap(),
        lexer_span(Token::Eof, (0, 15), (0, 15))
    );

    let mut handler = ParseHandler::new(b"   w1432  # whodat".to_vec());
    assert_eq!(
        handler.get_token().unwrap(),
        lexer_span(Token::Identifier(String::from("w1432")), (0, 3), (0, 7))
    );
    assert_eq!(
        handler.get_token().unwrap(),
        lexer_span(Token::Eof, (0, 18), (0, 18))
    );
}

#[test]
fn lexer_it_handles_numeric_token() {
    let mut handler = ParseHandler::new(b"120".to_vec());
    assert_eq!(
        handler.get_token().unwrap(),
        lexer_span(Token::Number(String::from("120")), (0, 0), (0, 2))
    );
    assert_eq!(
        handler.get_token().unwrap(),
        lexer_span(Token::Eof, (0, 3), (0, 3))
    );

    let mut handler = ParseHandler::new(b"   3.14159  # delicious".to_vec());
    assert_eq!(
        handler.get_token().unwrap(),
        lexer_span(Token::Number(String::from("3.14159")), (0, 3), (0, 9))
    );
    assert_eq!(
        handler.get_token().unwrap(),
        lexer_span(Token::Eof, (0, 23), (0, 23))
    );
}

#[test]
fn lexer_it_throws_error_on_bad_numeric() {
    let mut handler = ParseHandler::new(b"120.0.1".to_vec());
    if let TokenizerError::ParseError { message, from, to } = handler.get_token().unwrap_err() {
        assert_eq!(
            &message,
            &"Unable to parse number '120.0.1': invalid float literal"
        );
        assert_eq!(from, lexer_pos(0, 0));
        assert_eq!(to, lexer_pos(0, 6));
    } else {
        panic!();
    }

    assert_eq!(
        handler.get_token().unwrap(),
        lexer_span(Token::Eof, (0, 7), (0, 7))
    );

    let mut handler = ParseHandler::new(b"  # feckin tool \n 120.0.1".to_vec());
    if let TokenizerError::ParseError { message, from, to } = handler.get_token().unwrap_err() {
        assert_eq!(
            &message,
            &"Unable to parse number '120.0.1': invalid float literal"
        );
        assert_eq!(from, lexer_pos(1, 1));
        assert_eq!(to, lexer_pos(1, 7));
    } else {
        panic!();
    }
    assert_eq!(
        handler.get_token().unwrap(),
        lexer_span(Token::Eof, (1, 8), (1, 8))
    );
}

#[test]
fn lexer_it_handles_reserved_keyword_tokens() {
    let mut handler = ParseHandler::new(b"defn".to_vec());
    assert_eq!(
        handler.get_token().unwrap(),
        lexer_span(Token::Defn, (0, 0), (0, 3))
    );
    assert_eq!(
        handler.get_token().unwrap(),
        lexer_span(Token::Eof, (0, 4), (0, 4))
    );

    let mut handler = ParseHandler::new(b"   if  # whodat".to_vec());
    assert_eq!(
        handler.get_token().unwrap(),
        lexer_span(Token::If, (0, 3), (0, 4))
    );
    assert_eq!(
        handler.get_token().unwrap(),
        lexer_span(Token::Eof, (0, 15), (0, 15))
    );
}

#[test]
fn lexer_it_knows_the_whole_keyword_table() {
    for (text, token) in [
        (&b"ns"[..], Token::Ns),
        (&b"def"[..], Token::Def),
        (&b"defn"[..], Token::Defn),
        (&b"fn"[..], Token::Fn),
        (&b"quote"[..], Token::Quote),
        (&b"if"[..], Token::If),
    ] {
        let mut handler = ParseHandler::new(text.to_vec());
        assert_eq!(handler.get_token().unwrap().token, token);
    }
}

#[test]
fn lexer_it_reads_latin1_letters_as_identifier_characters() {
    // 0xE9 is a one-byte accented letter, alphabetic in the Latin-1 range
    let mut handler = ParseHandler::new(vec![0xE9, b'x']);
    assert_eq!(
        handler.get_token().unwrap().token,
        Token::Identifier(String::from("\u{e9}x"))
    );
}
