use lispy::tok::GreedyTokenizer;
use lispy::tok::Position;
use lispy::tok::Token;
use lispy::tok::TokenAndSpan;
use lispy::tok::Tokenizer;
use lispy::tok::TokenizerError;

fn tok_pos(line: usize, position: usize) -> Position {
    Position { line, position }
}

fn tok_span(token: Token, from: (usize, usize), to: (usize, usize)) -> TokenAndSpan {
    TokenAndSpan { token, from: tok_pos(from.0, from.1), to: tok_pos(to.0, to.1) }
}

#[test]
fn tok_it_handles_empty_buffer() {
    assert!(GreedyTokenizer::new(b"".to_vec()).next().is_none());

    assert!(GreedyTokenizer::new(b"   ".to_vec()).next().is_none());
}

#[test]
fn tok_it_ignores_file_containing_only_comments() {
    assert!(GreedyTokenizer::new(b"# blah".to_vec()).next().is_none());

    assert!(GreedyTokenizer::new(b"  # blah".to_vec()).next().is_none());

    let mut handler = GreedyTokenizer::new(b"  # only \n # comments".to_vec());
    assert!(handler.next().is_none());

    let mut handler = GreedyTokenizer::new(b"  # only \r # comments".to_vec());
    assert!(handler.next().is_none());
}

#[test]
fn tok_it_handles_parens() {
    let mut handler = GreedyTokenizer::new(b"(".to_vec());
    assert_eq!(
        handler.next().unwrap().unwrap(),
        tok_span(Token::OpenParen, (1, 0), (1, 0))
    );
    assert!(handler.next().is_none());

    let mut handler = GreedyTokenizer::new(b"   ()  # whodat".to_vec());
    assert_eq!(
        handler.next().unwrap().unwrap(),
        tok_span(Token::OpenParen, (1, 3), (1, 3))
    );
    assert_eq!(
        handler.next().unwrap().unwrap(),
        tok_span(Token::CloseParen, (1, 4), (1, 4))
    );
    assert!(handler.next().is_none());
}

#[test]
fn it_handles_multiple_parens() {
    let mut handler = GreedyTokenizer::new(b"(())".to_vec());

    // two open parens
    for position in 0..2 {
        assert_eq!(
            handler.next().unwrap().unwrap(),
            tok_span(Token::OpenParen, (1, position), (1, position))
        );
    }

    // two close parens
    for position in 2..4 {
        assert_eq!(
            handler.next().unwrap().unwrap(),
            tok_span(Token::CloseParen, (1, position), (1, position))
        );
    }

    // an eof at the end
    assert!(handler.next().is_none());
}

#[test]
fn tok_it_handles_identifier_token() {
    let mut handler = GreedyTokenizer::new(b"some_1dentifier".to_vec());
    assert_eq!(
        handler.next().unwrap().unwrap(),
        tok_span(
            Token::Identifier(String::from("some_1dentifier")),
            (1, 0),
            (1, 14)
        )
    );
    assert!(handler.next().is_none());

    let mut handler = GreedyTokenizer::new(b"   w1432)  # whodat".to_vec());
    assert_eq!(
        handler.next().unwrap().unwrap(),
        tok_span(Token::Identifier(String::from("w1432")), (1, 3), (1, 7))
    );
    assert_eq!(
        handler.next().unwrap().unwrap(),
        tok_span(Token::CloseParen, (1, 8), (1, 8))
    );
    assert!(handler.next().is_none());
}

#[test]
fn tok_it_handles_numeric_token() {
    let mut handler = GreedyTokenizer::new(b"120".to_vec());
    assert_eq!(
        handler.next().unwrap().unwrap(),
        tok_span(Token::Number(String::from("120")), (1, 0), (1, 2))
    );
    assert!(handler.next().is_none());

    let mut handler = GreedyTokenizer::new(b"   3.14159)  # delicious".to_vec());
    assert_eq!(
        handler.next().unwrap().unwrap(),
        tok_span(Token::Number(String::from("3.14159")), (1, 3), (1, 9))
    );
    assert_eq!(
        handler.next().unwrap().unwrap(),
        tok_span(Token::CloseParen, (1, 10), (1, 10))
    );
    assert!(handler.next().is_none());
}

#[test]
fn tok_it_throws_error_on_bad_numeric() {
    let mut handler = GreedyTokenizer::new(b"120.0.1".to_vec());
    if let TokenizerError::ReadError { message, from, to } = handler.next().unwrap().unwrap_err()
    {
        assert_eq!(
            &message,
            &"Unable to parse number '120.0.1': invalid float literal"
        );
        assert_eq!(from, tok_pos(1, 0));
        assert_eq!(to, tok_pos(1, 6));
    } else {
        panic!();
    }

    assert!(handler.next().is_none());

    // after the line break the malformed literal sits on the second line
    let mut handler = GreedyTokenizer::new(b"  # feckin tool \n 120.0.1".to_vec());
    if let TokenizerError::ReadError { message, from, to } = handler.next().unwrap().unwrap_err()
    {
        assert_eq!(
            &message,
            &"Unable to parse number '120.0.1': invalid float literal"
        );
        assert_eq!(from, tok_pos(2, 1));
        assert_eq!(to, tok_pos(2, 7));
    } else {
        panic!();
    }
    assert!(handler.next().is_none());
}

#[test]
fn tok_it_handles_reserved_keyword_tokens() {
    let mut handler = GreedyTokenizer::new(b"def".to_vec());
    assert_eq!(
        handler.next().unwrap().unwrap(),
        tok_span(Token::Def, (1, 0), (1, 2))
    );
    assert!(handler.next().is_none());

    let mut handler = GreedyTokenizer::new(b"   fn)  # whodat".to_vec());
    assert_eq!(
        handler.next().unwrap().unwrap(),
        tok_span(Token::Fn, (1, 3), (1, 4))
    );
    assert_eq!(
        handler.next().unwrap().unwrap(),
        tok_span(Token::CloseParen, (1, 5), (1, 5))
    );
    assert!(handler.next().is_none());
}

#[test]
fn it_handles_reserved_chars_tokens() {
    let mut handler = GreedyTokenizer::new(b"+".to_vec());
    assert_eq!(
        handler.next().unwrap().unwrap(),
        tok_span(Token::Identifier(String::from("+")), (1, 0), (1, 0))
    );
    assert!(handler.next().is_none());

    let mut handler = GreedyTokenizer::new(b"   -)  # whodat".to_vec());
    assert_eq!(
        handler.next().unwrap().unwrap(),
        tok_span(Token::Identifier(String::from("-")), (1, 3), (1, 3))
    );
    assert_eq!(
        handler.next().unwrap().unwrap(),
        tok_span(Token::CloseParen, (1, 4), (1, 4))
    );
    assert!(handler.next().is_none());
}

#[test]
fn tok_it_reads_longer_words_starting_with_keywords_as_identifiers() {
    // this tokenizer reserves only `def` and `fn`; `defn` stays an identifier
    let mut handler = GreedyTokenizer::new(b"defn deff fnord".to_vec());
    assert_eq!(
        handler.next().unwrap().unwrap().token,
        Token::Identifier(String::from("defn"))
    );
    assert_eq!(
        handler.next().unwrap().unwrap().token,
        Token::Identifier(String::from("deff"))
    );
    assert_eq!(
        handler.next().unwrap().unwrap().token,
        Token::Identifier(String::from("fnord"))
    );
    assert!(handler.next().is_none());
}
