use lispy::ast::AST;
use lispy::lexer::ParseHandler;
use lispy::parser::ParseError;
use lispy::parser::RecursiveDescentParser;
use lispy::tok::GreedyTokenizer;
use lispy::tok::Position;
use lispy::tok::Token;
use lispy::tok::Tokenizer;
use lispy::tok::TokenizerError;

fn parse_all(input: &[u8]) -> Vec<Result<Option<AST>, ParseError>> {
    let tokenizer = GreedyTokenizer::new(input.to_vec());
    let mut parser = RecursiveDescentParser::new(tokenizer);
    let mut out = Vec::new();
    loop {
        match parser.next_expression() {
            Ok(Some(ast)) => out.push(Ok(Some(*ast))),
            Ok(None) => {
                out.push(Ok(None));
                return out;
            }
            Err(e) => {
                out.push(Err(e));
                return out;
            }
        }
    }
}

#[test]
fn whitespace_and_comments_only_produce_no_tokens_and_parse_to_none() {
    for input in [
        &b""[..],
        &b"   "[..],
        &b"# blah"[..],
        &b"  # only \n # comments"[..],
        &b" \r\n # one \n # two \r   "[..],
    ] {
        assert!(GreedyTokenizer::new(input.to_vec()).next().is_none());
        let mut parser = RecursiveDescentParser::new(GreedyTokenizer::new(input.to_vec()));
        assert_eq!(parser.next_expression().unwrap(), None);
        // the pull-style tokenizer yields only its end marker for the same inputs
        let mut handler = ParseHandler::new(input.to_vec());
        assert!(matches!(
            handler.get_token().unwrap().token,
            lispy::lexer::Token::Eof
        ));
    }
}

#[test]
fn balanced_group_is_consumed_exactly() {
    // two forms back to back: each call consumes one group and stops there
    let mut parser = RecursiveDescentParser::new(GreedyTokenizer::new(b"(a)(b 1)".to_vec()));
    assert_eq!(
        *parser.next_expression().unwrap().unwrap(),
        AST::EvaluateExpr { callee: String::from("a"), args: vec![] }
    );
    assert_eq!(
        *parser.next_expression().unwrap().unwrap(),
        AST::EvaluateExpr {
            callee: String::from("b"),
            args: vec![AST::NumberExpr(String::from("1"))],
        }
    );
    assert_eq!(parser.next_expression().unwrap(), None);
}

#[test]
fn token_texts_concatenate_to_input_without_trivia() {
    let mut tokenizer = GreedyTokenizer::new(b" (add 1 2.5) # trailing\n(done)".to_vec());
    let mut recovered = String::new();
    while let Some(item) = tokenizer.next() {
        match item.unwrap().token {
            Token::OpenParen => recovered.push('('),
            Token::CloseParen => recovered.push(')'),
            Token::Def => recovered.push_str("def"),
            Token::Fn => recovered.push_str("fn"),
            Token::Identifier(text) => recovered.push_str(&text),
            Token::Number(text) => recovered.push_str(&text),
            Token::Unknown(c) => recovered.push(c),
        }
    }
    assert_eq!(recovered, "(add12.5)(done)");
}

#[test]
fn same_malformed_number_reports_the_same_error_twice() {
    let first = GreedyTokenizer::new(b"120.0.1".to_vec()).next().unwrap().unwrap_err();
    let second = GreedyTokenizer::new(b"120.0.1".to_vec()).next().unwrap().unwrap_err();
    assert_eq!(first, second);
    match first {
        TokenizerError::ReadError { message, from, to } => {
            assert_eq!(message, "Unable to parse number '120.0.1': invalid float literal");
            assert_eq!(from, Position { line: 1, position: 0 });
            assert_eq!(to, Position { line: 1, position: 6 });
        }
        _ => panic!(),
    }
}

#[test]
fn lone_close_paren_fails_with_mismatched_parens() {
    let mut parser = RecursiveDescentParser::new(GreedyTokenizer::new(b")".to_vec()));
    assert_eq!(
        parser.next_expression().unwrap_err(),
        ParseError::MismatchedParens(Position { line: 1, position: 0 })
    );
}

#[test]
fn lone_open_paren_fails_with_mismatched_parens() {
    let mut parser = RecursiveDescentParser::new(GreedyTokenizer::new(b"(".to_vec()));
    assert_eq!(
        parser.next_expression().unwrap_err(),
        ParseError::MismatchedParens(Position { line: 1, position: 0 })
    );
}

#[test]
fn addition_form_tokenizes_and_parses_as_an_application() {
    let mut tokenizer = GreedyTokenizer::new(b"(+ 1 2)".to_vec());
    let tokens: Vec<Token> = {
        let mut v = Vec::new();
        while let Some(item) = tokenizer.next() {
            v.push(item.unwrap().token);
        }
        v
    };
    assert_eq!(
        tokens,
        vec![
            Token::OpenParen,
            Token::Identifier(String::from("+")),
            Token::Number(String::from("1")),
            Token::Number(String::from("2")),
            Token::CloseParen,
        ]
    );

    let results = parse_all(b"(+ 1 2)");
    assert_eq!(
        results[0],
        Ok(Some(AST::EvaluateExpr {
            callee: String::from("+"),
            args: vec![
                AST::NumberExpr(String::from("1")),
                AST::NumberExpr(String::from("2")),
            ],
        }))
    );
    assert_eq!(results[1], Ok(None));
}

#[test]
fn def_form_parses_into_assignment_application() {
    let results = parse_all(b"(def x 5)");
    assert_eq!(
        results[0],
        Ok(Some(AST::EvaluateExpr {
            callee: String::from("__assign"),
            args: vec![
                AST::VariableExpr(String::from("x")),
                AST::NumberExpr(String::from("5")),
            ],
        }))
    );
    assert_eq!(results[1], Ok(None));
}

#[test]
fn fn_form_parses_into_a_function_with_its_body_reduced() {
    let results = parse_all(b"(fn (a b) (a))");
    assert_eq!(
        results[0],
        Ok(Some(AST::FunctionExpr {
            parameters: vec![String::from("a"), String::from("b")],
            statements: vec![AST::VariableExpr(String::from("a"))],
        }))
    );
    assert_eq!(results[1], Ok(None));
}

#[test]
fn fn_form_without_body_parens_fails_with_function_needs_a_body() {
    let results = parse_all(b"(fn () )");
    assert_eq!(results[0], Err(ParseError::FunctionNeedsABody));
}

#[test]
fn fn_form_with_empty_body_fails_with_function_needs_a_body() {
    let results = parse_all(b"(fn () ())");
    assert_eq!(results[0], Err(ParseError::FunctionNeedsABody));
}

#[test]
fn malformed_number_surfaces_through_the_parser() {
    let results = parse_all(b"120.0.1");
    assert_eq!(
        results[0],
        Err(ParseError::TokenizerError(TokenizerError::ReadError {
            message: String::from("Unable to parse number '120.0.1': invalid float literal"),
            from: Position { line: 1, position: 0 },
            to: Position { line: 1, position: 6 },
        }))
    );
}

#[test]
fn malformed_number_in_lexer_keeps_text_and_span() {
    let mut handler = ParseHandler::new(b"120.0.1".to_vec());
    match handler.get_token().unwrap_err() {
        lispy::lexer::TokenizerError::ParseError { message, from, to } => {
            assert!(message.contains("120.0.1"));
            assert_eq!(from, lispy::lexer::Position { line: 0, position: 0 });
            assert_eq!(to, lispy::lexer::Position { line: 0, position: 6 });
        }
        _ => panic!(),
    }
}

#[test]
fn bare_def_reports_an_unexpected_end_of_input() {
    let results = parse_all(b"def");
    assert_eq!(
        results[0],
        Err(ParseError::UnexpectedEof(Position { line: 1, position: 0 }))
    );
}

#[test]
fn def_without_value_reports_a_missing_expression() {
    let results = parse_all(b"(def x)");
    assert_eq!(
        results[0],
        Err(ParseError::UnexpectedExpressionError {
            expected: None,
            found: None,
            position: Position { line: 1, position: 5 },
        })
    );
}

#[test]
fn nested_application_passes_through_parenthesized_wrapping() {
    let results = parse_all(b"((f 1))");
    assert_eq!(
        results[0],
        Ok(Some(AST::EvaluateExpr {
            callee: String::from("f"),
            args: vec![AST::NumberExpr(String::from("1"))],
        }))
    );
}

#[test]
fn fn_parameters_must_all_be_identifiers() {
    let results = parse_all(b"(fn (a 1) (a))");
    match &results[0] {
        Err(ParseError::UnexpectedTokenError { expected, found, .. }) => {
            assert_eq!(*expected, Some(Token::Identifier(String::from("_"))));
            assert_eq!(*found, Some(Token::Number(String::from("1"))));
        }
        other => panic!("unexpected result: {:?}", other),
    }
}

#[test]
fn unknown_character_is_tokenized_and_rejected_by_the_parser() {
    let mut tokenizer = GreedyTokenizer::new(b"!".to_vec());
    assert_eq!(
        tokenizer.next().unwrap().unwrap().token,
        Token::Unknown('!')
    );

    let results = parse_all(b"!");
    match &results[0] {
        Err(ParseError::UnexpectedTokenError { expected, found, .. }) => {
            assert_eq!(*expected, None);
            assert_eq!(*found, Some(Token::Unknown('!')));
        }
        other => panic!("unexpected result: {:?}", other),
    }
}

#[test]
fn latin1_numeric_byte_makes_a_number_invalid() {
    // 0xBD is the one-byte code point for a fraction sign: it extends the
    // numeric run but is no ASCII digit, so the literal cannot be parsed
    let mut handler = GreedyTokenizer::new(vec![b'1', 0xBD]);
    match handler.next().unwrap() {
        Err(TokenizerError::ReadError { message, .. }) => {
            assert!(message.ends_with("invalid float literal"));
        }
        other => panic!("unexpected token: {:?}", other),
    }
}

#[test]
fn number_with_trailing_period_is_accepted() {
    let mut handler = GreedyTokenizer::new(b"1.".to_vec());
    assert_eq!(
        handler.next().unwrap().unwrap().token,
        Token::Number(String::from("1."))
    );
    assert!(handler.next().is_none());
}

#[test]
fn lone_period_is_rejected_as_a_number() {
    let mut handler = GreedyTokenizer::new(b".".to_vec());
    match handler.next().unwrap() {
        Err(TokenizerError::ReadError { message, .. }) => {
            assert_eq!(message, "Unable to parse number '.': invalid float literal");
        }
        other => panic!("unexpected token: {:?}", other),
    }
}
